//! Sorting the imports of a file that `sort_import_lines` already sorted
//! changes nothing, so `lint --fix` settles after one run.
use vstd::prelude::*;
use crate::commands::lint::file_checks::{
    ImportSortState, import_block, import_sort_run, import_sort_step, sorted_imports_text,
};
use crate::sorting::{lemma_sorted_set_exists, lemma_sorted_set_of, sorted_set};
use crate::text::{
    is_ws, leading_ws, lemma_trim_end_is_prefix, lemma_trim_facts, lemma_trim_start_is_suffix, lemma_lines_at_newline,
    lines, strip_cr, trim, trim_end, trim_start,
};

verus! {

/// The lines joined, each followed by a newline.
pub open spec fn join_lines(ls: Seq<Seq<char>>) -> Seq<char>
    decreases ls.len(),
{
    if ls.len() == 0 {
        Seq::empty()
    } else {
        join_lines(ls.drop_last()) + ls.last() + "\n"@
    }
}

/// The lines of a block's entries, each indented two spaces past `indent`.
pub open spec fn entry_lines(entries: Seq<Seq<char>>, indent: Seq<char>) -> Seq<Seq<char>> {
    entries.map_values(|e: Seq<char>| indent + "  "@ + e)
}

/// The lines the sorter writes for one input line, in the state it is in.
pub open spec fn step_lines(st: ImportSortState, line: Seq<char>) -> Seq<Seq<char>> {
    let t = trim(line);
    if "imports {"@.is_prefix_of(t) {
        seq![line]
    } else if st.in_imports && t == "}"@ {
        entry_lines(sorted_set(st.imports.to_set()), st.indent).push(line)
    } else if st.in_imports && "\""@.is_prefix_of(t) {
        Seq::empty()
    } else {
        seq![line]
    }
}

/// The lines the sorter writes for the given lines.
pub open spec fn written(ls: Seq<Seq<char>>) -> Seq<Seq<char>>
    decreases ls.len(),
{
    if ls.len() == 0 {
        Seq::empty()
    } else {
        written(ls.drop_last()) + step_lines(import_sort_run(ls.drop_last()), ls.last())
    }
}

/// The sorter's state after further lines, from a given state.
pub open spec fn sort_from(st: ImportSortState, ls: Seq<Seq<char>>) -> ImportSortState
    decreases ls.len(),
{
    if ls.len() == 0 {
        st
    } else {
        import_sort_step(sort_from(st, ls.drop_last()), ls.last())
    }
}

/// A line that `str::lines` gives back as it is: no line break in it and no
/// carriage return at its end.
pub open spec fn clean_line(l: Seq<char>) -> bool {
    !l.contains('\n') && !(l.len() > 0 && l.last() == '\r')
}

/// Joining the lines of two parts joins the parts.
proof fn lemma_join_concat(a: Seq<Seq<char>>, b: Seq<Seq<char>>)
    ensures
        join_lines(a + b) == join_lines(a) + join_lines(b),
    decreases b.len(),
{
    if b.len() == 0 {
        assert(a + b =~= a);
        assert(join_lines(a) + join_lines(b) =~= join_lines(a));
    } else {
        assert((a + b).drop_last() =~= a + b.drop_last());
        assert((a + b).last() == b.last());
        lemma_join_concat(a, b.drop_last());
        assert(join_lines(a + b) =~= join_lines(a) + join_lines(b));
    }
}

/// One line joined is that line and a newline.
proof fn lemma_join_one(l: Seq<char>)
    ensures
        join_lines(seq![l]) == l + "\n"@,
{
    let one = seq![l];
    assert(one.drop_last() =~= Seq::<Seq<char>>::empty());
    assert(one.last() == l);
    assert(join_lines(one.drop_last()) == Seq::<char>::empty());
    assert(join_lines(one) == join_lines(one.drop_last()) + one.last() + "\n"@);
    assert(Seq::<char>::empty() + l + "\n"@ =~= l + "\n"@);
}

/// A block's text is its entry lines joined.
proof fn lemma_import_block_lines(es: Seq<Seq<char>>, indent: Seq<char>)
    ensures
        import_block(es, indent) == join_lines(entry_lines(es, indent)),
    decreases es.len(),
{
    if es.len() > 0 {
        assert(entry_lines(es, indent).drop_last() =~= entry_lines(es.drop_last(), indent));
        lemma_import_block_lines(es.drop_last(), indent);
        assert(import_block(es, indent) =~= join_lines(entry_lines(es, indent)));
    }
}

/// What the sorter writes is its written lines joined.
proof fn lemma_run_out(ls: Seq<Seq<char>>)
    ensures
        import_sort_run(ls).out == join_lines(written(ls)),
    decreases ls.len(),
{
    if ls.len() > 0 {
        let d = ls.drop_last();
        let l = ls.last();
        let s0 = import_sort_run(d);
        lemma_run_out(d);
        let g = step_lines(s0, l);
        lemma_join_concat(written(d), g);
        let t = trim(l);
        if "imports {"@.is_prefix_of(t) {
            lemma_join_one(l);
            assert(import_sort_run(ls).out =~= join_lines(written(ls)));
        } else if s0.in_imports && t == "}"@ {
            let es = entry_lines(sorted_set(s0.imports.to_set()), s0.indent);
            assert(g.drop_last() =~= es);
            lemma_import_block_lines(sorted_set(s0.imports.to_set()), s0.indent);
            assert(import_sort_run(ls).out =~= join_lines(written(ls)));
        } else if s0.in_imports && "\""@.is_prefix_of(t) {
            assert(join_lines(written(ls)) =~= join_lines(written(d)));
        } else {
            lemma_join_one(l);
            assert(import_sort_run(ls).out =~= join_lines(written(ls)));
        }
    }
}

/// Running over two parts runs over the second from where the first ended.
proof fn lemma_run_concat(a: Seq<Seq<char>>, b: Seq<Seq<char>>)
    ensures
        import_sort_run(a + b) == sort_from(import_sort_run(a), b),
    decreases b.len(),
{
    if b.len() == 0 {
        assert(a + b =~= a);
    } else {
        assert((a + b).drop_last() =~= a + b.drop_last());
        assert((a + b).last() == b.last());
        lemma_run_concat(a, b.drop_last());
    }
}

/// Trailing whitespace after a part with content is cut from that part alone.
proof fn lemma_trim_end_concat(x: Seq<char>, g: Seq<char>)
    ensures
        trim_end(g).len() > 0 ==> trim_end(x + g) == x + trim_end(g),
        trim_end(g).len() == 0 ==> trim_end(x + g) == trim_end(x),
    decreases g.len(),
{
    if g.len() == 0 {
        assert(x + g =~= x);
    } else {
        assert((x + g).drop_last() =~= x + g.drop_last());
        assert((x + g).last() == g.last());
        lemma_trim_end_concat(x, g.drop_last());
        if !is_ws(g.last()) {
            assert(trim_end(g) == g);
        }
    }
}

/// A final newline is trailing whitespace.
proof fn lemma_trim_end_newline(s: Seq<char>)
    ensures
        trim_end(s + "\n"@) == trim_end(s),
{
    let t = s + "\n"@;
    assert(t.last() == '\n') by {
        reveal_strlit("\n");
    }
    assert(t.drop_last() =~= s) by {
        reveal_strlit("\n");
    }
}

/// Cutting trailing whitespace twice cuts nothing more.
proof fn lemma_trim_end_idempotent(s: Seq<char>)
    ensures
        trim_end(trim_end(s)) == trim_end(s),
{
    let k = lemma_trim_end_is_prefix(s);
    if k > 0 {
        assert(s.take(k).last() == s[k - 1]);
    }
}

/// Cutting leading and trailing whitespace can be done in either order.
proof fn lemma_trim_commute(s: Seq<char>)
    ensures
        trim_start(trim_end(s)) == trim_end(trim_start(s)),
    decreases s.len(),
{
    if s.len() == 0 {
    } else if is_ws(s[0]) {
        let d = s.drop_first();
        lemma_trim_commute(d);
        assert(s =~= seq![s[0]] + d);
        lemma_trim_end_concat(seq![s[0]], d);
        if trim_end(d).len() > 0 {
            let u = seq![s[0]] + trim_end(d);
            assert(u.drop_first() =~= trim_end(d));
        } else {
            let one = seq![s[0]];
            assert(one.drop_last() =~= Seq::<char>::empty());
            assert(trim_end(one) == trim_end(one.drop_last()));
        }
    } else {
        let k = lemma_trim_end_is_prefix(s);
        if k > 0 {
            assert(s.take(k)[0] == s[0]);
        }
    }
}

/// Trailing whitespace does not change what a line trims to.
proof fn lemma_trim_of_trim_end(l: Seq<char>)
    ensures
        trim(trim_end(l)) == trim(l),
        trim_end(l).len() == 0 ==> trim(l).len() == 0,
{
    lemma_trim_commute(l);
    lemma_trim_end_idempotent(trim_start(l));
    lemma_trim_commute(trim_end(l));
    lemma_trim_end_idempotent(l);
}

/// Whitespace before a trimmed text is cut by trimming.
proof fn lemma_trim_after_ws(w: Seq<char>, e: Seq<char>)
    requires
        forall|i: int| 0 <= i < w.len() ==> is_ws(#[trigger] w[i]),
        e.len() > 0,
        !is_ws(e[0]),
        trim(e) == e,
    ensures
        trim(w + e) == e,
    decreases w.len(),
{
    if w.len() == 0 {
        assert(w + e =~= e);
    } else {
        assert((w + e)[0] == w[0]);
        assert((w + e).drop_first() =~= w.drop_first() + e);
        lemma_trim_after_ws(w.drop_first(), e);
        assert(trim_start(w + e) == trim_start(w.drop_first() + e));
    }
}

/// The leading whitespace of a text is whitespace and lies within the text.
proof fn lemma_leading_ws(s: Seq<char>)
    ensures
        forall|i: int| 0 <= i < leading_ws(s).len() ==> is_ws(#[trigger] leading_ws(s)[i]),
        forall|c: char| leading_ws(s).contains(c) ==> s.contains(c),
    decreases s.len(),
{
    if s.len() > 0 && is_ws(s[0]) {
        let d = s.drop_first();
        lemma_leading_ws(d);
        assert(trim_start(s) == trim_start(d));
        let m = lemma_trim_start_is_suffix(d);
        assert(trim_start(d).len() == d.len() - m);
        assert(leading_ws(d) =~= d.take(m));
        assert(leading_ws(s) =~= s.take(m + 1));
        assert(leading_ws(s) =~= seq![s[0]] + leading_ws(d));
        assert forall|c: char| leading_ws(s).contains(c) implies s.contains(c) by {
            let i = choose|i: int| 0 <= i < leading_ws(s).len() && leading_ws(s)[i] == c;
            if i > 0 {
                assert(leading_ws(d)[i - 1] == c);
                let j = choose|j: int| 0 <= j < d.len() && d[j] == c;
                assert(d[j] == s[j + 1]);
            } else {
                assert(s[0] == c);
            }
        }
    } else {
        assert(trim_start(s) == s);
        assert(leading_ws(s) =~= Seq::<char>::empty());
    }
}

/// A trimmed line that is not empty ends with a character that is not
/// whitespace, and holds only characters of the line.
proof fn lemma_trim_shape(l: Seq<char>)
    ensures
        trim(l).len() > 0 ==> !is_ws(trim(l).last()),
        trim(l).len() > 0 ==> !is_ws(trim(l)[0]),
        forall|c: char| trim(l).contains(c) ==> l.contains(c),
        trim(trim(l)) == trim(l),
{
    lemma_trim_facts(l);
    let u = trim_start(l);
    let a = lemma_trim_start_is_suffix(l);
    let k = lemma_trim_end_is_prefix(u);
    if k > 0 {
        assert(u.take(k).last() == u[k - 1]);
        assert(u.take(k)[0] == u[0]);
        assert(u[0] == l[a]);
    }
}

/// What a held entry looks like: a trimmed text that starts with a quote.
spec fn held_ok(e: Seq<char>) -> bool {
    &&& "\""@.is_prefix_of(e)
    &&& trim(e) == e
    &&& e.len() > 0
    &&& !is_ws(e[0])
    &&& !is_ws(e.last())
}

/// The sorter holds only such entries and indents with whitespace.
spec fn sorter_ok(st: ImportSortState) -> bool {
    &&& forall|i: int| 0 <= i < st.imports.len() ==> held_ok(#[trigger] st.imports[i])
    &&& forall|i: int| 0 <= i < st.indent.len() ==> is_ws(#[trigger] st.indent[i])
}

/// No line break in the sorter's held entries and indentation.
spec fn sorter_clean(st: ImportSortState) -> bool {
    &&& forall|i: int| 0 <= i < st.imports.len() ==> !(#[trigger] st.imports[i]).contains('\n')
    &&& !st.indent.contains('\n')
}

proof fn lemma_sorter_ok(ls: Seq<Seq<char>>)
    ensures
        sorter_ok(import_sort_run(ls)),
        (forall|i: int| 0 <= i < ls.len() ==> !(#[trigger] ls[i]).contains('\n')) ==> sorter_clean(import_sort_run(ls)),
    decreases ls.len(),
{
    if ls.len() > 0 {
        let d = ls.drop_last();
        let l = ls.last();
        lemma_sorter_ok(d);
        let s0 = import_sort_run(d);
        let t = trim(l);
        lemma_trim_shape(l);
        lemma_leading_ws(l);
        if forall|i: int| 0 <= i < ls.len() ==> !(#[trigger] ls[i]).contains('\n') {
            assert forall|i: int| 0 <= i < d.len() implies !(#[trigger] d[i]).contains('\n') by {
                assert(d[i] == ls[i]);
            }
            assert(!l.contains('\n')) by {
                assert(ls[ls.len() - 1] == l);
            }
        }
        if "imports {"@.is_prefix_of(t) {
        } else if s0.in_imports && t == "}"@ {
        } else if s0.in_imports && "\""@.is_prefix_of(t) {
            let st = import_sort_run(ls);
            assert(st.imports == s0.imports.push(t));
            assert(t.len() > 0 && t[0] == '"') by {
                reveal_strlit("\"");
                assert(t.take(1)[0] == t[0]);
            }
            assert forall|i: int| 0 <= i < st.imports.len() implies held_ok(#[trigger] st.imports[i]) by {
                if i < s0.imports.len() {
                    assert(st.imports[i] == s0.imports[i]);
                }
            }
        } else {
        }
    }
}

/// Entry lines of held-like entries, read inside an open block, are held
/// again, in order.
proof fn lemma_entries_held(out: Seq<char>, held: Seq<Seq<char>>, es: Seq<Seq<char>>, indent: Seq<char>)
    requires
        forall|i: int| 0 <= i < es.len() ==> held_ok(#[trigger] es[i]),
        forall|i: int| 0 <= i < indent.len() ==> is_ws(#[trigger] indent[i]),
    ensures
        sort_from(ImportSortState { out, imports: held, in_imports: true, indent }, entry_lines(es, indent))
            == (ImportSortState { out, imports: held + es, in_imports: true, indent }),
    decreases es.len(),
{
    let st = ImportSortState { out, imports: held, in_imports: true, indent };
    if es.len() == 0 {
        assert(held + es =~= held);
    } else {
        let d = es.drop_last();
        let e = es.last();
        assert forall|i: int| 0 <= i < d.len() implies held_ok(#[trigger] d[i]) by {
            assert(d[i] == es[i]);
        }
        lemma_entries_held(out, held, d, indent);
        let ls = entry_lines(es, indent);
        assert(ls.drop_last() =~= entry_lines(d, indent));
        let line = indent + "  "@ + e;
        assert(ls.last() == line);
        assert(held_ok(e)) by {
            assert(es[es.len() - 1] == e);
        }
        let w = indent + "  "@;
        assert forall|i: int| 0 <= i < w.len() implies is_ws(#[trigger] w[i]) by {
            reveal_strlit("  ");
            if i >= indent.len() {
                assert(w[i] == ' ');
            } else {
                assert(w[i] == indent[i]);
            }
        }
        assert(line =~= w + e);
        lemma_trim_after_ws(w, e);
        assert(trim(line) == e);
        assert(e[0] == '"') by {
            reveal_strlit("\"");
            assert(e.take(1)[0] == e[0]);
        }
        assert(!"imports {"@.is_prefix_of(e)) by {
            reveal_strlit("imports {");
            if "imports {"@.is_prefix_of(e) {
                assert(e.take(9)[0] == e[0]);
            }
        }
        assert(e != "}"@) by {
            reveal_strlit("}");
        }
        assert(held + d.push(e) =~= held + es);
        assert((held + d).push(e) =~= held + es);
    }
}

/// Running the sorter over what it wrote writes the same text again,
/// ends in the same block state, and holds nothing back.
proof fn lemma_rerun(ls: Seq<Seq<char>>)
    ensures
        import_sort_run(written(ls)) == (ImportSortState {
            out: import_sort_run(ls).out,
            imports: Seq::empty(),
            in_imports: import_sort_run(ls).in_imports,
            indent: import_sort_run(ls).indent,
        }),
    decreases ls.len(),
{
    if ls.len() == 0 {
        assert(written(ls) =~= Seq::<Seq<char>>::empty());
    } else {
        let d = ls.drop_last();
        let l = ls.last();
        let s0 = import_sort_run(d);
        lemma_rerun(d);
        lemma_sorter_ok(d);
        let a = written(d);
        let g = step_lines(s0, l);
        lemma_run_concat(a, g);
        let t0 = import_sort_run(a);
        let t = trim(l);
        if "imports {"@.is_prefix_of(t) {
            assert(g.drop_last() =~= Seq::<Seq<char>>::empty());
            assert(g.last() == l);
            assert(sort_from(t0, g.drop_last()) == t0);
        } else if s0.in_imports && t == "}"@ {
            let es = sorted_set(s0.imports.to_set());
            lemma_sorted_set_exists(s0.imports);
            assert forall|i: int| 0 <= i < es.len() implies held_ok(#[trigger] es[i]) by {
                assert(es.to_set().contains(es[i]));
                assert(s0.imports.to_set().contains(es[i]));
                let k = choose|k: int| 0 <= k < s0.imports.len() && s0.imports[k] == es[i];
            }
            lemma_entries_held(s0.out, Seq::empty(), es, s0.indent);
            assert(g.drop_last() =~= entry_lines(es, s0.indent));
            assert(Seq::<Seq<char>>::empty() + es =~= es);
            lemma_sorted_set_of(es);
            assert(sort_from(t0, g) == import_sort_step(sort_from(t0, g.drop_last()), l));
        } else if s0.in_imports && "\""@.is_prefix_of(t) {
            assert(g =~= Seq::<Seq<char>>::empty());
            assert(a + g =~= a);
        } else {
            assert(g.drop_last() =~= Seq::<Seq<char>>::empty());
            assert(g.last() == l);
            assert(sort_from(t0, g.drop_last()) == t0);
        }
    }
}

/// The input lines that give the sorter's text once trailing whitespace is
/// cut: up to the last line that writes something other than whitespace,
/// that line itself cut at its end; a single empty line when there is none.
pub open spec fn cut(ls: Seq<Seq<char>>) -> Seq<Seq<char>>
    decreases ls.len(),
{
    if ls.len() == 0 {
        seq![Seq::<char>::empty()]
    } else if trim_end(join_lines(step_lines(import_sort_run(ls.drop_last()), ls.last()))).len() > 0 {
        ls.drop_last().push(trim_end(ls.last()))
    } else {
        cut(ls.drop_last())
    }
}

proof fn lemma_cut(ls: Seq<Seq<char>>)
    ensures
        join_lines(written(cut(ls))) == trim_end(join_lines(written(ls))) + "\n"@,
    decreases ls.len(),
{
    if ls.len() == 0 {
        let c = cut(ls);
        let e = Seq::<char>::empty();
        assert(c.drop_last() =~= Seq::<Seq<char>>::empty());
        assert(c.last() == e);
        assert(trim(e) =~= e);
        assert(!"imports {"@.is_prefix_of(e)) by {
            reveal_strlit("imports {");
        }
        assert(step_lines(import_sort_run(c.drop_last()), e) == seq![e]);
        assert(written(c.drop_last()) =~= Seq::<Seq<char>>::empty());
        assert(written(c) =~= seq![e]);
        lemma_join_one(e);
        assert(written(ls) =~= Seq::<Seq<char>>::empty());
        assert(e + "\n"@ =~= "\n"@);
    } else {
        let d = ls.drop_last();
        let l = ls.last();
        let s0 = import_sort_run(d);
        let g = step_lines(s0, l);
        let x = join_lines(written(d));
        lemma_join_concat(written(d), g);
        lemma_trim_end_concat(x, join_lines(g));
        if trim_end(join_lines(g)).len() > 0 {
            let c = d.push(trim_end(l));
            assert(c.drop_last() =~= d);
            assert(c.last() == trim_end(l));
            lemma_join_concat(written(d), step_lines(s0, trim_end(l)));
            lemma_trim_of_trim_end(l);
            let t = trim(l);
            if "imports {"@.is_prefix_of(t) || !(s0.in_imports && t == "}"@) && !(s0.in_imports && "\""@.is_prefix_of(t)) {
                lemma_join_one(l);
                lemma_join_one(trim_end(l));
                lemma_trim_end_newline(l);
            } else if s0.in_imports && t == "}"@ {
                let es = entry_lines(sorted_set(s0.imports.to_set()), s0.indent);
                let j = join_lines(es);
                assert(g.drop_last() =~= es);
                assert(step_lines(s0, trim_end(l)).drop_last() =~= es);
                assert(join_lines(g) =~= j + l + "\n"@);
                lemma_trim_end_newline(j + l);
                assert(t.len() > 0) by {
                    reveal_strlit("}");
                }
                lemma_trim_end_concat(j, l);
                assert(join_lines(step_lines(s0, trim_end(l))) =~= j + trim_end(l) + "\n"@);
                assert(join_lines(step_lines(s0, trim_end(l))) =~= trim_end(join_lines(g)) + "\n"@);
            } else {
                assert(join_lines(g) =~= Seq::<char>::empty());
            }
            assert(x + trim_end(join_lines(g)) + "\n"@ =~= x + (trim_end(join_lines(g)) + "\n"@));
        } else {
            lemma_cut(d);
        }
    }
}

/// The lines `str::lines` gives have no line break in them.
proof fn lemma_lines_have_no_break(s: Seq<char>)
    ensures
        forall|i: int| 0 <= i < lines(s).len() ==> !(#[trigger] lines(s)[i]).contains('\n'),
    decreases s.len(),
{
    if s.len() > 0 {
        s.index_of_first_ensures('\n');
        match s.index_of_first('\n') {
            None => {
                assert(lines(s) == seq![s]);
            },
            Some(i) => {
                lemma_lines_have_no_break(s.skip(i + 1));
                let first = strip_cr(s.take(i));
                assert(!first.contains('\n')) by {
                    if first.contains('\n') {
                        let k = choose|k: int| 0 <= k < first.len() && first[k] == '\n';
                        assert(s[k] == '\n');
                    }
                }
                let ls = lines(s);
                assert(ls == seq![first] + lines(s.skip(i + 1)));
                assert forall|j: int| 0 <= j < ls.len() implies !(#[trigger] ls[j]).contains('\n') by {
                    if j > 0 {
                        assert(ls[j] == lines(s.skip(i + 1))[j - 1]);
                    }
                }
            },
        }
    }
}

/// Lines that `str::lines` gives back as they are come back from their
/// joined text.
proof fn lemma_lines_of_join(v: Seq<Seq<char>>)
    requires
        forall|i: int| 0 <= i < v.len() ==> clean_line(#[trigger] v[i]),
    ensures
        lines(join_lines(v)) == v,
    decreases v.len(),
{
    if v.len() > 0 {
        let rest = v.drop_first();
        assert(v =~= seq![v[0]] + rest);
        lemma_join_concat(seq![v[0]], rest);
        lemma_join_one(v[0]);
        assert forall|i: int| 0 <= i < rest.len() implies clean_line(#[trigger] rest[i]) by {
            assert(rest[i] == v[i + 1]);
        }
        lemma_lines_of_join(rest);
        assert(clean_line(v[0]));
        let r = "\n"@ + join_lines(rest);
        assert(r.len() > 0 && r[0] == '\n') by {
            reveal_strlit("\n");
        }
        assert(r.drop_first() =~= join_lines(rest)) by {
            reveal_strlit("\n");
        }
        assert(join_lines(v) =~= v[0] + r);
        lemma_lines_at_newline(v[0], r);
        assert(strip_cr(v[0]) == v[0]);
        assert(lines(join_lines(v)) =~= v);
    } else {
        assert(join_lines(v) =~= Seq::<char>::empty());
    }
}

/// Cutting keeps lines free of line breaks.
proof fn lemma_cut_no_break(ls: Seq<Seq<char>>)
    requires
        forall|i: int| 0 <= i < ls.len() ==> !(#[trigger] ls[i]).contains('\n'),
    ensures
        forall|i: int| 0 <= i < cut(ls).len() ==> !(#[trigger] cut(ls)[i]).contains('\n'),
    decreases ls.len(),
{
    let d = ls.drop_last();
    if ls.len() == 0 {
        let e = Seq::<char>::empty();
        assert(cut(ls) == seq![e]);
        assert(!e.contains('\n'));
        assert(cut(ls).len() == 1 && cut(ls)[0] == e);
    } else {
        assert forall|i: int| 0 <= i < d.len() implies !(#[trigger] d[i]).contains('\n') by {
            assert(d[i] == ls[i]);
        }
        if trim_end(join_lines(step_lines(import_sort_run(d), ls.last()))).len() > 0 {
            let l = ls.last();
            assert(!l.contains('\n')) by {
                assert(ls[ls.len() - 1] == l);
            }
            let k = lemma_trim_end_is_prefix(l);
            let u = trim_end(l);
            assert(!u.contains('\n')) by {
                if u.contains('\n') {
                    let j = choose|j: int| 0 <= j < u.len() && u[j] == '\n';
                    assert(l[j] == '\n');
                }
            }
            let c = cut(ls);
            assert forall|i: int| 0 <= i < c.len() implies !(#[trigger] c[i]).contains('\n') by {
                if i < d.len() {
                    assert(c[i] == d[i]);
                } else {
                    assert(c[i] == u);
                }
            }
        } else {
            lemma_cut_no_break(d);
            assert(cut(ls) == cut(d));
        }
    }
}

/// The sorter writes lines free of line breaks for such lines.
proof fn lemma_written_no_break(ls: Seq<Seq<char>>)
    requires
        forall|i: int| 0 <= i < ls.len() ==> !(#[trigger] ls[i]).contains('\n'),
    ensures
        forall|i: int| 0 <= i < written(ls).len() ==> !(#[trigger] written(ls)[i]).contains('\n'),
    decreases ls.len(),
{
    if ls.len() == 0 {
        assert(written(ls) =~= Seq::<Seq<char>>::empty());
    } else {
        let d = ls.drop_last();
        let l = ls.last();
        assert forall|i: int| 0 <= i < d.len() implies !(#[trigger] d[i]).contains('\n') by {
            assert(d[i] == ls[i]);
        }
        assert(!l.contains('\n')) by {
            assert(ls[ls.len() - 1] == l);
        }
        lemma_written_no_break(d);
        lemma_sorter_ok(d);
        let s0 = import_sort_run(d);
        let g = step_lines(s0, l);
        let es = sorted_set(s0.imports.to_set());
        lemma_sorted_set_exists(s0.imports);
        assert forall|j: int| 0 <= j < g.len() implies !(#[trigger] g[j]).contains('\n') by {
            if g[j] != l {
                assert(s0.in_imports && trim(l) == "}"@);
                assert(g.drop_last() =~= entry_lines(es, s0.indent));
                assert(j < es.len());
                let e = es[j];
                assert(es.to_set().contains(e));
                assert(s0.imports.to_set().contains(e));
                let k = choose|k: int| 0 <= k < s0.imports.len() && s0.imports[k] == e;
                assert(!s0.imports[k].contains('\n'));
                let line = s0.indent + "  "@ + e;
                assert(g[j] == line);
                assert(!line.contains('\n')) by {
                    reveal_strlit("  ");
                    if line.contains('\n') {
                        let m = choose|m: int| 0 <= m < line.len() && line[m] == '\n';
                        if m < s0.indent.len() {
                            assert(s0.indent[m] == '\n');
                        } else if m >= s0.indent.len() + 2 {
                            assert(e[m - s0.indent.len() - 2] == '\n');
                        }
                    }
                }
            }
        }
        let w = written(ls);
        assert(w == written(d) + g);
        assert forall|i: int| 0 <= i < w.len() implies !(#[trigger] w[i]).contains('\n') by {
            if i < written(d).len() {
                assert(w[i] == written(d)[i]);
            } else {
                assert(w[i] == g[i - written(d).len()]);
            }
        }
    }
}

/// The lines the import fix writes for a text, up to its last line with
/// anything but whitespace (that line cut at its end).
pub open spec fn fixed_lines(content: Seq<char>) -> Seq<Seq<char>> {
    written(cut(lines(content)))
}

/// Law: sorting the imports of a text whose imports were sorted already
/// changes nothing, so applying the fix twice equals applying it once. It
/// holds unless a line the fix writes, before the end of its text, ends in
/// a carriage return: `str::lines` then drops that carriage return when the
/// fixed text is read again, and the second fix writes the line without it.
pub proof fn law_import_sorting_settles(content: Seq<char>)
    requires
        forall|i: int| 0 <= i < fixed_lines(content).len()
            ==> !((#[trigger] fixed_lines(content)[i]).len() > 0 && fixed_lines(content)[i].last() == '\r'),
    ensures
        sorted_imports_text(sorted_imports_text(content)) == sorted_imports_text(content),
{
    let ls = lines(content);
    lemma_lines_have_no_break(content);
    let v = cut(ls);
    lemma_cut_no_break(ls);
    lemma_written_no_break(v);
    assert forall|i: int| 0 <= i < written(v).len() implies clean_line(#[trigger] written(v)[i]) by {
        assert(fixed_lines(content)[i] == written(v)[i]);
    }
    lemma_run_out(ls);
    lemma_cut(ls);
    let p = sorted_imports_text(content);
    let z = trim_end(import_sort_run(ls).out);
    assert(p == z + "\n"@);
    assert(p == join_lines(written(v)));
    lemma_lines_of_join(written(v));
    assert(lines(p) == written(v));
    lemma_rerun(v);
    lemma_run_out(v);
    assert(import_sort_run(lines(p)).out == p);
    lemma_trim_end_newline(z);
    lemma_trim_end_idempotent(import_sort_run(ls).out);
}

} // verus!
