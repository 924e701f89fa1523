//! Making user-supplied text safe to show and to pass on.
use vstd::prelude::*;
use crate::model::DeclarchError;
use crate::text::{chars_of, concat3, owned, string_of};

verus! {

/// A character that terminals interpret rather than print (C0 controls and DEL).
pub open spec fn is_control(c: char) -> bool {
    (c as u32) < 0x20 || (c as u32) == 0x7f
}

/// `s` without its control characters.
pub open spec fn displayable(s: Seq<char>) -> Seq<char>
    decreases s.len(),
{
    if s.len() == 0 {
        Seq::empty()
    } else if is_control(s.last()) {
        displayable(s.drop_last())
    } else {
        displayable(s.drop_last()).push(s.last())
    }
}

/// `s` with its control characters removed, for display in messages.
pub fn sanitize_for_display(s: &str) -> (r: String)
    ensures
        r@ == displayable(s@),
{
    let c = chars_of(s);
    let mut out: Vec<char> = Vec::new();
    let mut i: usize = 0;
    while i < c.len()
        invariant
            i <= c.len(),
            c@ == s@,
            out@ == displayable(c@.take(i as int)),
        decreases c.len() - i,
    {
        assert(c@.take(i + 1).drop_last() =~= c@.take(i as int));
        let u = c[i] as u32;
        if !(u < 0x20 || u == 0x7f) {
            out.push(c[i]);
        }
        i += 1;
    }
    assert(c@.take(c.len() as int) =~= c@);
    string_of(out.as_slice())
}

/// Characters a package name may hold: ASCII letters and digits and `._+-@/`.
pub open spec fn package_char(c: char) -> bool {
    ('a' <= c && c <= 'z') || ('A' <= c && c <= 'Z') || ('0' <= c && c <= '9') || c == '.' || c == '_'
        || c == '+' || c == '-' || c == '@' || c == '/'
}

/// A package name is non-empty and made of package characters only.
pub open spec fn valid_package_name(name: Seq<char>) -> bool {
    name.len() > 0 && forall|i: int| 0 <= i < name.len() ==> package_char(#[trigger] name[i])
}

/// Law: text made displayable holds no control character, and making it
/// displayable again changes nothing.
pub proof fn law_displayable_is_clean(s: Seq<char>)
    ensures
        forall|i: int| 0 <= i < displayable(s).len() ==> !is_control(#[trigger] displayable(s)[i]),
        displayable(displayable(s)) == displayable(s),
    decreases s.len(),
{
    if s.len() > 0 {
        law_displayable_is_clean(s.drop_last());
        let d = displayable(s.drop_last());
        if !is_control(s.last()) {
            let e = d.push(s.last());
            assert(e.drop_last() =~= d);
            assert(displayable(e) == displayable(d).push(s.last()));
        }
    }
}

/// Rejects empty package names and names with characters outside
/// `package_char` (shell metacharacters, whitespace, quotes).
pub fn validate_package_name(name: &str) -> (r: Result<(), DeclarchError>)
    ensures
        valid_package_name(name@) <==> r is Ok,
        name@.len() == 0 ==> (r matches Err(DeclarchError::Other(m)) && m@ == "Package name cannot be empty"@),
        name@.len() > 0 && !valid_package_name(name@) ==> (r matches Err(DeclarchError::Other(m))
            && m@ == "Package name contains unsafe characters: '"@ + name@ + "'"@),
{
    let c = chars_of(name);
    if c.len() == 0 {
        return Err(DeclarchError::Other(owned("Package name cannot be empty")));
    }
    let mut i: usize = 0;
    while i < c.len()
        invariant
            i <= c.len(),
            c@ == name@,
            forall|j: int| 0 <= j < i ==> package_char(#[trigger] c@[j]),
        decreases c.len() - i,
    {
        let ch = c[i];
        let ok = ('a' <= ch && ch <= 'z') || ('A' <= ch && ch <= 'Z') || ('0' <= ch && ch <= '9')
            || ch == '.' || ch == '_' || ch == '+' || ch == '-' || ch == '@' || ch == '/';
        if !ok {
            return Err(DeclarchError::Other(concat3("Package name contains unsafe characters: '", name, "'")));
        }
        i += 1;
    }
    Ok(())
}

} // verus!
