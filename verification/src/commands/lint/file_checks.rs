//! Checks and safe fixes on the text of configuration files.
use vstd::prelude::*;
use crate::sorting::{lemma_sorted_set_of, sorted_set, sorted_unique};
use crate::text::{
    chars_of, leading_ws, leading_ws_chars, lines, push_all, split_lines, string_of, trim,
    trim_chars, trim_end, trim_end_chars, views,
};

verus! {

/// Where the import sorter is after some lines.
pub struct ImportSortState {
    /// Text written so far.
    pub out: Seq<char>,
    /// Import entries collected in the open `imports` block.
    pub imports: Seq<Seq<char>>,
    /// Whether an `imports {` line opened a block that no `}` closed yet.
    pub in_imports: bool,
    /// Indentation of the line that opened the block.
    pub indent: Seq<char>,
}

/// The entries of a block, one per line, indented two spaces past `indent`.
pub open spec fn import_block(entries: Seq<Seq<char>>, indent: Seq<char>) -> Seq<char>
    decreases entries.len(),
{
    if entries.len() == 0 {
        Seq::empty()
    } else {
        import_block(entries.drop_last(), indent) + indent + "  "@ + entries.last() + "\n"@
    }
}

/// One line of the import sorter: an `imports {` line opens a block; inside
/// it, quoted entries are held back and the closing `}` writes them sorted
/// and deduplicated before itself; every other line is copied.
pub open spec fn import_sort_step(st: ImportSortState, line: Seq<char>) -> ImportSortState {
    let t = trim(line);
    if "imports {"@.is_prefix_of(t) {
        ImportSortState {
            out: st.out + line + "\n"@,
            imports: st.imports,
            in_imports: true,
            indent: leading_ws(line),
        }
    } else if st.in_imports && t == "}"@ {
        ImportSortState {
            out: st.out + import_block(sorted_set(st.imports.to_set()), st.indent) + line + "\n"@,
            imports: Seq::empty(),
            in_imports: false,
            indent: st.indent,
        }
    } else if st.in_imports && "\""@.is_prefix_of(t) {
        ImportSortState { out: st.out, imports: st.imports.push(t), in_imports: st.in_imports, indent: st.indent }
    } else {
        ImportSortState { out: st.out + line + "\n"@, imports: st.imports, in_imports: st.in_imports, indent: st.indent }
    }
}

/// The sorter's state after the given lines.
pub open spec fn import_sort_run(ls: Seq<Seq<char>>) -> ImportSortState
    decreases ls.len(),
{
    if ls.len() == 0 {
        ImportSortState { out: Seq::empty(), imports: Seq::empty(), in_imports: false, indent: Seq::empty() }
    } else {
        import_sort_step(import_sort_run(ls.drop_last()), ls.last())
    }
}

/// The text with every `imports { ... }` block's quoted entries sorted and
/// deduplicated, trailing whitespace cut to a single final newline.
pub open spec fn sorted_imports_text(content: Seq<char>) -> Seq<char> {
    trim_end(import_sort_run(lines(content)).out) + "\n"@
}

fn prefix_of_literal(p: &str, t: &Vec<char>) -> (r: bool)
    ensures
        r == p@.is_prefix_of(t@),
{
    let pc = chars_of(p);
    crate::text::starts_with_chars(t.as_slice(), pc.as_slice())
}

fn is_literal(p: &str, t: &Vec<char>) -> (r: bool)
    ensures
        r == (t@ == p@),
{
    let pc = chars_of(p);
    crate::text::eq_chars(t.as_slice(), pc.as_slice())
}

/// Sorts and deduplicates the quoted entries of each `imports { ... }` block.
pub fn sort_import_lines(content: &str) -> (r: String)
    ensures
        r@ == sorted_imports_text(content@),
{
    let chars = chars_of(content);
    let ls = split_lines(chars.as_slice());
    let ghost lv = ls@.map_values(|l: Vec<char>| l@);
    let mut out: Vec<char> = Vec::new();
    let mut imports: Vec<String> = Vec::new();
    let mut in_imports = false;
    let mut indent: Vec<char> = Vec::new();
    let mut i: usize = 0;
    assert(lv.take(0) =~= Seq::<Seq<char>>::empty());
    assert(views(imports@) =~= Seq::<Seq<char>>::empty());
    assert(out@ =~= Seq::<char>::empty());
    assert(indent@ =~= Seq::<char>::empty());
    while i < ls.len()
        invariant
            i <= ls.len(),
            lv == ls@.map_values(|l: Vec<char>| l@),
            lv == lines(content@),
            import_sort_run(lv.take(i as int)) == (ImportSortState {
                out: out@,
                imports: views(imports@),
                in_imports: in_imports,
                indent: indent@,
            }),
        decreases ls.len() - i,
    {
        assert(lv.take(i + 1).drop_last() =~= lv.take(i as int));
        assert(lv.take(i + 1).last() == ls@[i as int]@);
        let line = &ls[i];
        let t = trim_chars(line.as_slice());
        if prefix_of_literal("imports {", &t) {
            push_all(&mut out, line.as_slice());
            out.push('\n');
            in_imports = true;
            indent = leading_ws_chars(line.as_slice());
            assert(out@ =~= import_sort_run(lv.take(i as int)).out + line@ + "\n"@) by {
                reveal_strlit("\n");
            }
        } else if in_imports && is_literal("}", &t) {
            let sorted = sorted_unique(&imports);
            proof {
                lemma_sorted_set_of(views(sorted@));
            }
            let ghost out0 = out@;
            let mut k: usize = 0;
            while k < sorted.len()
                invariant
                    k <= sorted.len(),
                    out@ == out0 + import_block(views(sorted@).take(k as int), indent@),
                decreases sorted.len() - k,
            {
                assert(views(sorted@).take(k + 1).drop_last() =~= views(sorted@).take(k as int));
                assert(views(sorted@).take(k + 1).last() == sorted@[k as int]@);
                push_all(&mut out, indent.as_slice());
                out.push(' ');
                out.push(' ');
                let e = chars_of(sorted[k].as_str());
                push_all(&mut out, e.as_slice());
                out.push('\n');
                assert(out@ =~= out0 + import_block(views(sorted@).take(k + 1), indent@)) by {
                    reveal_strlit("  ");
                    reveal_strlit("\n");
                }
                k += 1;
            }
            assert(views(sorted@).take(sorted.len() as int) =~= views(sorted@));
            push_all(&mut out, line.as_slice());
            out.push('\n');
            imports = Vec::new();
            in_imports = false;
            assert(out@ =~= out0 + import_block(views(sorted@), indent@) + line@ + "\n"@) by {
                reveal_strlit("\n");
            }
            assert(views(imports@) =~= Seq::<Seq<char>>::empty());
        } else if in_imports && prefix_of_literal("\"", &t) {
            let ghost before = views(imports@);
            imports.push(string_of(t.as_slice()));
            assert(views(imports@) =~= before.push(t@));
        } else {
            push_all(&mut out, line.as_slice());
            out.push('\n');
            assert(out@ =~= import_sort_run(lv.take(i as int)).out + line@ + "\n"@) by {
                reveal_strlit("\n");
            }
        }
        i += 1;
    }
    assert(lv.take(ls.len() as int) =~= lv);
    let mut res = trim_end_chars(&out);
    res.push('\n');
    assert(res@ =~= trim_end(out@) + "\n"@) by {
        reveal_strlit("\n");
    }
    string_of(res.as_slice())
}

} // verus!
