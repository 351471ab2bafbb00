//! Small text helpers for names, choices and numbers typed by users.

use vstd::prelude::*;

verus! {

/// The characters of `s`, in order.
pub fn chars_of(s: &str) -> (v: Vec<char>)
    ensures
        v@ == s@,
{
    broadcast use vstd::string::axiom_spec_iter;

    let mut v: Vec<char> = Vec::new();
    for c in it: s.chars()
        invariant
            it.seq() == s@,
            v@ == s@.take(it.index() as int),
    {
        v.push(c);
        assert(v@ =~= s@.take(it.index() as int + 1));
    }
    assert(v@ =~= s@);
    v
}

/// Whether two character sequences are equal.
pub fn same_chars(a: &Vec<char>, b: &Vec<char>) -> (r: bool)
    ensures
        r == (a@ == b@),
{
    if a.len() != b.len() {
        return false;
    }
    let mut i: usize = 0;
    while i < a.len()
        invariant
            a@.len() == b@.len(),
            0 <= i <= a@.len(),
            forall|j: int| 0 <= j < i ==> a@[j] == b@[j],
        decreases a@.len() - i,
    {
        if a[i] != b[i] {
            return false;
        }
        i += 1;
    }
    assert(a@ =~= b@);
    true
}

/// Whether two strings hold the same characters.
pub fn same_text(a: &str, b: &str) -> (r: bool)
    ensures
        r == (a@ == b@),
{
    let x = chars_of(a);
    let y = chars_of(b);
    same_chars(&x, &y)
}

/// A character's ASCII-lowercase code: `A..=Z` map to `a..=z`, every
/// other character keeps its code.
pub open spec fn ascii_fold(c: char) -> u32 {
    if 'A' <= c <= 'Z' {
        (c as u32 + 32) as u32
    } else {
        c as u32
    }
}

/// Equality of two texts up to ASCII case.
pub open spec fn same_ignoring_ascii_case(a: Seq<char>, b: Seq<char>) -> bool {
    &&& a.len() == b.len()
    &&& forall|i: int| 0 <= i < a.len() ==> #[trigger] ascii_fold(a[i]) == ascii_fold(b[i])
}

fn fold(c: char) -> (u: u32)
    ensures
        u == ascii_fold(c),
{
    if 'A' <= c && c <= 'Z' {
        (c as u32) + 32
    } else {
        c as u32
    }
}

/// Whether two texts are equal up to ASCII case.
pub fn eq_ignore_ascii_case(a: &str, b: &str) -> (r: bool)
    ensures
        r == same_ignoring_ascii_case(a@, b@),
{
    let x = chars_of(a);
    let y = chars_of(b);
    if x.len() != y.len() {
        return false;
    }
    let mut i: usize = 0;
    while i < x.len()
        invariant
            x@ == a@,
            y@ == b@,
            x@.len() == y@.len(),
            0 <= i <= x@.len(),
            forall|j: int| 0 <= j < i ==> #[trigger] ascii_fold(x@[j]) == ascii_fold(y@[j]),
        decreases x@.len() - i,
    {
        if fold(x[i]) != fold(y[i]) {
            return false;
        }
        i += 1;
    }
    true
}

/// A character that may start or continue a typed number: an ASCII digit,
/// `.`, `-` or `+`.
pub open spec fn spec_numeric_char(c: char) -> bool {
    ('0' <= c <= '9') || c == '.' || c == '-' || c == '+'
}

pub fn numeric_char(c: char) -> (b: bool)
    ensures
        b == spec_numeric_char(c),
        b <==> ((48 <= c as u32 <= 57) || c as u32 == 43 || c as u32 == 45 || c as u32 == 46),
{
    proof {
        law_numeric_chars(c);
    }
    ('0' <= c && c <= '9') || c == '.' || c == '-' || c == '+'
}

/// Length of the longest prefix of `text` made of number characters; all
/// of them are ASCII, so it is also the prefix's length in bytes.
pub fn numeric_prefix_len(text: &str) -> (n: usize)
    ensures
        n <= text@.len(),
        forall|i: int| 0 <= i < n ==> #[trigger] spec_numeric_char(text@[i]),
        n < text@.len() ==> !spec_numeric_char(text@[n as int]),
        forall|i: int|
            0 <= i < n ==> {
                let u = (#[trigger] text@[i]) as u32;
                (48 <= u <= 57) || u == 43 || u == 45 || u == 46
            },
        n < text@.len() ==> {
            let u = text@[n as int] as u32;
            !((48 <= u <= 57) || u == 43 || u == 45 || u == 46)
        },
{
    proof {
        assert forall|c: char| #[trigger] spec_numeric_char(c) <==> ((48 <= c as u32 <= 57) || c as u32
            == 43 || c as u32 == 45 || c as u32 == 46) by {
            law_numeric_chars(c);
        }
    }
    let x = chars_of(text);
    let mut i: usize = 0;
    while i < x.len()
        invariant
            x@ == text@,
            0 <= i <= x@.len(),
            forall|j: int| 0 <= j < i ==> #[trigger] spec_numeric_char(x@[j]),
            forall|j: int|
                0 <= j < i ==> {
                    let u = (#[trigger] x@[j]) as u32;
                    (48 <= u <= 57) || u == 43 || u == 45 || u == 46
                },
        decreases x@.len() - i,
    {
        if !numeric_char(x[i]) {
            return i;
        }
        i += 1;
    }
    i
}

/// The number characters, by code: the ten ASCII digits (48 to 57), `+`
/// (43), `-` (45) and `.` (46), and nothing else.
pub proof fn law_numeric_chars(c: char)
    ensures
        spec_numeric_char(c) <==> ((48 <= c as u32 <= 57) || c as u32 == 43 || c as u32 == 45
            || c as u32 == 46),
{
}

/// A text of number characters is a number prefix all the way: every
/// ASCII digit counts.
pub proof fn law_digits_are_numeric(s: Seq<char>)
    requires
        forall|i: int| 0 <= i < s.len() ==> 48 <= #[trigger] s[i] as u32 <= 57,
    ensures
        forall|i: int| 0 <= i < s.len() ==> #[trigger] spec_numeric_char(s[i]),
{
    assert forall|i: int| 0 <= i < s.len() implies #[trigger] spec_numeric_char(s[i]) by {
        law_numeric_chars(s[i]);
    }
}

} // verus!
