//! Character-sequence utilities shared by the manifest and pipeline logic:
//! substring search, line-safety and name validity predicates, and decimal
//! rendering of replica counts.

use vstd::prelude::*;

verus! {

use vstd::string::StringExecFns;

/// `needle` occurs as a contiguous run inside `hay` starting at index `i`.
pub open spec fn occurs_at(hay: Seq<char>, needle: Seq<char>, i: int) -> bool {
    0 <= i && i + needle.len() <= hay.len() && hay.subrange(i, i + needle.len() as int)
        == needle
}

/// `needle` occurs somewhere inside `hay`.
pub open spec fn seq_contains(hay: Seq<char>, needle: Seq<char>) -> bool {
    exists|i: int| occurs_at(hay, needle, i)
}

/// The text holds no line break, so it can stand inside a single line of a
/// structured document.
pub open spec fn line_safe(s: Seq<char>) -> bool {
    forall|i: int| 0 <= i < s.len() ==> s[i] != '\n'
}

/// A character that may appear in an application name: DNS labels use
/// lower-case letters, digits and hyphens.
pub open spec fn name_char(c: char) -> bool {
    ('a' <= c && c <= 'z') || ('0' <= c && c <= '9') || c == '-'
}

/// A valid application name: a non-empty DNS-label-safe key of at most 63
/// characters.
pub open spec fn valid_name(s: Seq<char>) -> bool {
    &&& 0 < s.len() <= 63
    &&& forall|i: int| 0 <= i < s.len() ==> name_char(#[trigger] s[i])
}

/// Checks that a string is a valid application name.
pub fn check_valid_name(s: &str) -> (b: bool)
    ensures
        b == valid_name(s@),
{
    let n = s.unicode_len();
    if n == 0 || n > 63 {
        return false;
    }
    let mut i: usize = 0;
    while i < n
        invariant
            0 <= i <= n,
            n == s@.len(),
            forall|k: int| 0 <= k < i ==> name_char(#[trigger] s@[k]),
        decreases n - i,
    {
        let c = s.get_char(i);
        if !(('a' <= c && c <= 'z') || ('0' <= c && c <= '9') || c == '-') {
            return false;
        }
        i += 1;
    }
    true
}

/// Checks that a string holds no line break.
pub fn check_line_safe(s: &str) -> (b: bool)
    ensures
        b == line_safe(s@),
{
    let n = s.unicode_len();
    let mut i: usize = 0;
    while i < n
        invariant
            0 <= i <= n,
            n == s@.len(),
            forall|k: int| 0 <= k < i ==> s@[k] != '\n',
        decreases n - i,
    {
        if s.get_char(i) == '\n' {
            return false;
        }
        i += 1;
    }
    true
}

/// Does `needle` match `hay` at position `i`?
pub fn match_at(hay: &str, needle: &str, i: usize) -> (b: bool)
    requires
        i + needle@.len() <= hay@.len(),
    ensures
        b == occurs_at(hay@, needle@, i as int),
{
    let n = needle.unicode_len();
    let hlen = hay.unicode_len();
    let mut j: usize = 0;
    while j < n
        invariant
            0 <= j <= n,
            n == needle@.len(),
            hlen == hay@.len(),
            i + n <= hlen,
            forall|k: int| 0 <= k < j ==> hay@[i + k] == needle@[k],
        decreases n - j,
    {
        if hay.get_char(i + j) != needle.get_char(j) {
            assert(hay@[i + j] != needle@[j as int]);
            assert(!occurs_at(hay@, needle@, i as int)) by {
                if hay@.subrange(i as int, i + needle@.len() as int) == needle@ {
                    assert(hay@.subrange(i as int, i + needle@.len() as int)[j as int]
                        == hay@[i + j]);
                }
            }
            return false;
        }
        j += 1;
    }
    assert(hay@.subrange(i as int, i + needle@.len() as int) =~= needle@);
    true
}

/// First occurrence of `needle` inside `hay`, if any.
pub fn find_str(hay: &str, needle: &str) -> (r: Option<usize>)
    ensures
        match r {
            Some(i) => occurs_at(hay@, needle@, i as int) && forall|j: int|
                0 <= j < i ==> !occurs_at(hay@, needle@, j),
            None => !seq_contains(hay@, needle@),
        },
{
    let hay_len = hay.unicode_len();
    let needle_len = needle.unicode_len();
    if needle_len > hay_len {
        assert forall|j: int| !occurs_at(hay@, needle@, j) by {}
        return None;
    }
    let last = hay_len - needle_len;
    let mut i: usize = 0;
    loop
        invariant
            0 <= i <= last,
            last == hay@.len() - needle@.len(),
            needle@.len() <= hay@.len(),
            forall|j: int| 0 <= j < i ==> !occurs_at(hay@, needle@, j),
        decreases last - i,
    {
        if match_at(hay, needle, i) {
            return Some(i);
        }
        if i == last {
            assert forall|j: int| i < j implies !occurs_at(hay@, needle@, j) by {}
            return None;
        }
        i += 1;
    }
}

/// Character-for-character equality of two string slices.
pub fn str_eq(a: &str, b: &str) -> (r: bool)
    ensures
        r == (a@ == b@),
{
    let al = a.unicode_len();
    let bl = b.unicode_len();
    if al != bl {
        return false;
    }
    if match_at(a, b, 0) {
        assert(a@.subrange(0, b@.len() as int) =~= a@);
        true
    } else {
        assert(a@ != b@) by {
            if a@ == b@ {
                assert(a@.subrange(0, b@.len() as int) =~= b@);
            }
        }
        false
    }
}

/// Substring containment with an exact contract.
pub fn str_contains(hay: &str, needle: &str) -> (b: bool)
    ensures
        b == seq_contains(hay@, needle@),
{
    match find_str(hay, needle) {
        Some(_) => true,
        None => false,
    }
}

/// Lexicographic order on character sequences: the order in which
/// timestamps and other ASCII keys compare.
pub open spec fn lex_le(a: Seq<char>, b: Seq<char>) -> bool
    decreases a.len(),
{
    if a.len() == 0 {
        true
    } else if b.len() == 0 {
        false
    } else if a[0] < b[0] {
        true
    } else if b[0] < a[0] {
        false
    } else {
        lex_le(a.drop_first(), b.drop_first())
    }
}

/// Any two sequences are ordered one way or the other.
pub proof fn lemma_lex_le_total(a: Seq<char>, b: Seq<char>)
    ensures
        lex_le(a, b) || lex_le(b, a),
    decreases a.len(),
{
    if a.len() != 0 && b.len() != 0 && !(a[0] < b[0]) && !(b[0] < a[0]) {
        lemma_lex_le_total(a.drop_first(), b.drop_first());
    }
}

/// The order is transitive.
pub proof fn lemma_lex_le_trans(a: Seq<char>, b: Seq<char>, c: Seq<char>)
    requires
        lex_le(a, b),
        lex_le(b, c),
    ensures
        lex_le(a, c),
    decreases a.len(),
{
    if a.len() != 0 && b.len() != 0 && c.len() != 0 && !(a[0] < c[0]) && !(c[0] < a[0]) {
        if !(a[0] < b[0]) && !(b[0] < a[0]) && !(b[0] < c[0]) && !(c[0] < b[0]) {
            lemma_lex_le_trans(a.drop_first(), b.drop_first(), c.drop_first());
        }
    }
}

/// Lexicographic comparison of two string slices.
pub fn lex_le_exec(a: &str, b: &str) -> (r: bool)
    ensures
        r == lex_le(a@, b@),
{
    let al = a.unicode_len();
    let bl = b.unicode_len();
    let mut i: usize = 0;
    proof {
        assert(a@.skip(0) =~= a@);
        assert(b@.skip(0) =~= b@);
    }
    loop
        invariant
            0 <= i <= al,
            i <= bl,
            al == a@.len(),
            bl == b@.len(),
            lex_le(a@, b@) == lex_le(a@.skip(i as int), b@.skip(i as int)),
        decreases al - i,
    {
        if i == al {
            return true;
        }
        if i == bl {
            return false;
        }
        let ca = a.get_char(i);
        let cb = b.get_char(i);
        if ca < cb {
            return true;
        }
        if cb < ca {
            return false;
        }
        proof {
            assert(a@.skip(i as int).drop_first() =~= a@.skip(i as int + 1));
            assert(b@.skip(i as int).drop_first() =~= b@.skip(i as int + 1));
        }
        i += 1;
    }
}

/// A sequence occurs in itself, at the front.
pub proof fn lemma_contains_self(x: Seq<char>)
    ensures
        seq_contains(x, x),
{
    assert(occurs_at(x, x, 0)) by {
        assert(x.subrange(0, x.len() as int) =~= x);
    }
}

/// Containment is kept when text is prepended.
pub proof fn lemma_contains_extend_left(a: Seq<char>, b: Seq<char>, x: Seq<char>)
    requires
        seq_contains(b, x),
    ensures
        seq_contains(a + b, x),
{
    let i = choose|i: int| occurs_at(b, x, i);
    assert(occurs_at(a + b, x, a.len() + i)) by {
        assert((a + b).subrange(a.len() + i, a.len() + i + x.len() as int) =~= b.subrange(
            i,
            i + x.len() as int,
        ));
    }
}

/// Containment is kept when text is appended.
pub proof fn lemma_contains_extend_right(a: Seq<char>, b: Seq<char>, x: Seq<char>)
    requires
        seq_contains(a, x),
    ensures
        seq_contains(a + b, x),
{
    let i = choose|i: int| occurs_at(a, x, i);
    assert(occurs_at(a + b, x, i)) by {
        assert((a + b).subrange(i, i + x.len() as int) =~= a.subrange(i, i + x.len() as int));
    }
}

/// The decimal digit character for a value below ten.
pub open spec fn digit_char(d: nat) -> char {
    if d == 0 {
        '0'
    } else if d == 1 {
        '1'
    } else if d == 2 {
        '2'
    } else if d == 3 {
        '3'
    } else if d == 4 {
        '4'
    } else if d == 5 {
        '5'
    } else if d == 6 {
        '6'
    } else if d == 7 {
        '7'
    } else if d == 8 {
        '8'
    } else {
        '9'
    }
}

/// The usual decimal rendering of a natural number, most significant digit
/// first, with no leading zeros (except for zero itself).
pub open spec fn dec_str(n: nat) -> Seq<char>
    decreases n,
{
    if n < 10 {
        seq![digit_char(n)]
    } else {
        dec_str(n / 10) + seq![digit_char(n % 10)]
    }
}

fn digit_str(d: u32) -> (s: &'static str)
    requires
        d < 10,
    ensures
        s@ == seq![digit_char(d as nat)],
{
    proof {
        reveal_strlit("0");
        reveal_strlit("1");
        reveal_strlit("2");
        reveal_strlit("3");
        reveal_strlit("4");
        reveal_strlit("5");
        reveal_strlit("6");
        reveal_strlit("7");
        reveal_strlit("8");
        reveal_strlit("9");
    }
    if d == 0 {
        let s = "0";
        assert(s@ =~= seq![digit_char(0)]);
        s
    } else if d == 1 {
        let s = "1";
        assert(s@ =~= seq![digit_char(1)]);
        s
    } else if d == 2 {
        let s = "2";
        assert(s@ =~= seq![digit_char(2)]);
        s
    } else if d == 3 {
        let s = "3";
        assert(s@ =~= seq![digit_char(3)]);
        s
    } else if d == 4 {
        let s = "4";
        assert(s@ =~= seq![digit_char(4)]);
        s
    } else if d == 5 {
        let s = "5";
        assert(s@ =~= seq![digit_char(5)]);
        s
    } else if d == 6 {
        let s = "6";
        assert(s@ =~= seq![digit_char(6)]);
        s
    } else if d == 7 {
        let s = "7";
        assert(s@ =~= seq![digit_char(7)]);
        s
    } else if d == 8 {
        let s = "8";
        assert(s@ =~= seq![digit_char(8)]);
        s
    } else {
        let s = "9";
        assert(s@ =~= seq![digit_char(9)]);
        s
    }
}

/// Every character of a decimal rendering is a digit.
pub proof fn lemma_dec_str_digits(n: nat)
    ensures
        forall|k: int|
            0 <= k < dec_str(n).len() ==> '0' <= #[trigger] dec_str(n)[k] && dec_str(n)[k]
                <= '9',
    decreases n,
{
    if n >= 10 {
        lemma_dec_str_digits(n / 10);
        assert forall|k: int|
            0 <= k < dec_str(n).len() implies '0' <= #[trigger] dec_str(n)[k] && dec_str(n)[k]
            <= '9' by {
            if k < dec_str(n / 10).len() {
                assert(dec_str(n)[k] == dec_str(n / 10)[k]);
            } else {
                assert(dec_str(n)[k] == digit_char(n % 10));
            }
        }
    }
}

/// Renders a replica count in decimal.
pub fn u32_to_string(n: u32) -> (s: String)
    ensures
        s@ == dec_str(n as nat),
    decreases n,
{
    if n < 10 {
        String::from_str(digit_str(n))
    } else {
        let prefix = u32_to_string(n / 10);
        prefix.concat(digit_str(n % 10))
    }
}

} // verus!
