//! The declarative manifest store: a single structured text document holding
//! one service block per deployed application, mutated by add, remove and
//! set-replicas operations and queried by an exact-key existence test.
//!
//! A service block starts at a header line `  name:` at the document's
//! service indentation level and extends through every following
//! more-indented line. All operations work on that textual extent, so
//! unrelated blocks and boilerplate lines are preserved character for
//! character. The store itself never touches a file; the surrounding shell
//! reads the document in, applies an operation, and writes the whole
//! document back while holding the process-wide writer lock.

use vstd::prelude::*;

verus! {

use vstd::string::StringExecFns;
use vstd::string::StrSliceExecFns;
use crate::text::line_safe;
use crate::text::name_char;
use crate::text::valid_name;
use crate::text::occurs_at;
use crate::text::seq_contains;
use crate::text::dec_str;
use crate::metadata::AppMetadata;

/// Errors of the manifest store.
#[derive(Debug, PartialEq, Eq, Structural)]
pub enum ManifestError {
    /// A block with the given key is already present.
    AlreadyExists,
    /// No block with the given key is present.
    NotFound,
}

/// The header line introducing the block keyed by `name`.
pub open spec fn header_line(name: Seq<char>) -> Seq<char> {
    seq![' ', ' '] + name + seq![':']
}

/// Position `i` begins a line: it is the document start or follows a line
/// break.
pub open spec fn is_line_start(s: Seq<char>, i: int) -> bool {
    i == 0 || s[i - 1] == '\n'
}

/// The line starting at `i` is exactly the header of the block keyed by
/// `name`.
pub open spec fn is_header_at(s: Seq<char>, name: Seq<char>, i: int) -> bool {
    let h = header_line(name);
    &&& 0 <= i
    &&& i + h.len() <= s.len()
    &&& is_line_start(s, i)
    &&& s.subrange(i, i + h.len() as int) == h
    &&& (i + h.len() == s.len() || s[i + h.len()] == '\n')
}

/// A block keyed exactly by `name` is present. This is the exact-key test:
/// a raw substring search would conflate a name with its extensions.
pub open spec fn has_block(s: Seq<char>, name: Seq<char>) -> bool {
    exists|i: int| is_header_at(s, name, i)
}

/// The line starting at `i` is a continuation line of a block: it is
/// indented more deeply than the block's own header.
pub open spec fn is_cont_at(s: Seq<char>, i: int) -> bool {
    i + 3 <= s.len() && s[i] == ' ' && s[i + 1] == ' ' && s[i + 2] == ' '
}

/// `e` closes the block whose header starts at `start`: every line boundary
/// strictly inside `(start, e)` begins a continuation line, and `e` itself
/// is the document end or a line boundary that does not.
pub open spec fn is_extent_end(s: Seq<char>, start: int, e: int) -> bool {
    &&& start < e <= s.len()
    &&& (e == s.len() || is_line_start(s, e))
    &&& (e == s.len() || !is_cont_at(s, e))
    &&& forall|j: int| start < j < e && is_line_start(s, j) ==> is_cont_at(s, j)
}

/// The position of the first header for `name` (meaningful when
/// `has_block` holds).
pub open spec fn first_header(s: Seq<char>, name: Seq<char>) -> int {
    choose|i: int|
        is_header_at(s, name, i) && forall|j: int| 0 <= j < i ==> !is_header_at(s, name, j)
}

/// The end of the block whose header starts at `start` (meaningful when an
/// extent end exists).
pub open spec fn extent_end(s: Seq<char>, start: int) -> int {
    choose|e: int| is_extent_end(s, start, e)
}

pub proof fn lemma_extent_end_unique(s: Seq<char>, start: int, e1: int, e2: int)
    requires
        is_extent_end(s, start, e1),
        is_extent_end(s, start, e2),
    ensures
        e1 == e2,
{
    if e1 < e2 {
        assert(is_line_start(s, e1) && !is_cont_at(s, e1));
        assert(is_cont_at(s, e1));
    }
    if e2 < e1 {
        assert(is_line_start(s, e2) && !is_cont_at(s, e2));
        assert(is_cont_at(s, e2));
    }
}

pub proof fn lemma_first_header_unique(s: Seq<char>, name: Seq<char>, i1: int, i2: int)
    requires
        is_header_at(s, name, i1),
        forall|j: int| 0 <= j < i1 ==> !is_header_at(s, name, j),
        is_header_at(s, name, i2),
        forall|j: int| 0 <= j < i2 ==> !is_header_at(s, name, j),
    ensures
        i1 == i2,
{
}

/// Does the header of the block keyed by `name` start at `i`?
fn header_at_exec(doc: &str, name: &str, i: usize) -> (b: bool)
    requires
        valid_name(name@),
        i <= doc@.len(),
    ensures
        b == is_header_at(doc@, name@, i as int),
{
    let dlen = doc.unicode_len();
    let nlen = name.unicode_len();
    let ghost h = header_line(name@);
    assert(h.len() == nlen + 3);
    if dlen - i < nlen + 3 {
        return false;
    }
    if !(i == 0 || doc.get_char(i - 1) == '\n') {
        return false;
    }
    if doc.get_char(i) != ' ' {
        assert(!is_header_at(doc@, name@, i as int)) by {
            if is_header_at(doc@, name@, i as int) {
                assert(doc@.subrange(i as int, i + h.len() as int)[0] == h[0]);
                assert(h[0] == ' ');
            }
        }
        return false;
    }
    if doc.get_char(i + 1) != ' ' {
        assert(!is_header_at(doc@, name@, i as int)) by {
            if is_header_at(doc@, name@, i as int) {
                assert(doc@.subrange(i as int, i + h.len() as int)[1] == h[1]);
                assert(h[1] == ' ');
            }
        }
        return false;
    }
    if !crate::text::match_at(doc, name, i + 2) {
        assert(!is_header_at(doc@, name@, i as int)) by {
            if is_header_at(doc@, name@, i as int) {
                assert forall|k: int| 0 <= k < nlen implies doc@[i + 2 + k] == name@[k] by {
                    assert(doc@.subrange(i as int, i + h.len() as int)[2 + k] == h[2 + k]);
                    assert(h[2 + k] == name@[k]);
                }
                assert(doc@.subrange(i + 2, i + 2 + nlen as int) =~= name@);
            }
        }
        return false;
    }
    if doc.get_char(i + 2 + nlen) != ':' {
        assert(!is_header_at(doc@, name@, i as int)) by {
            if is_header_at(doc@, name@, i as int) {
                assert(doc@.subrange(i as int, i + h.len() as int)[2 + nlen] == h[
                    2 + nlen as int
                ]);
                assert(h[2 + nlen as int] == ':');
            }
        }
        return false;
    }
    if i + nlen + 3 < dlen && doc.get_char(i + nlen + 3) != '\n' {
        return false;
    }
    proof {
        assert forall|k: int| 0 <= k < h.len() implies doc@.subrange(
            i as int,
            i + h.len() as int,
        )[k] == h[k] by {
            if k == 0 {
            } else if k == 1 {
            } else if k < 2 + nlen {
                assert(doc@.subrange(i + 2, i + 2 + nlen as int)[k - 2] == name@[k - 2]);
                assert(h[k] == name@[k - 2]);
            } else {
                assert(h[k] == ':');
            }
        }
        assert(doc@.subrange(i as int, i + h.len() as int) =~= h);
    }
    true
}

/// The position of the first header for `name`, scanning from the front.
fn find_header(doc: &str, name: &str) -> (r: Option<usize>)
    requires
        valid_name(name@),
    ensures
        match r {
            Some(i) => is_header_at(doc@, name@, i as int) && forall|j: int|
                0 <= j < i ==> !is_header_at(doc@, name@, j),
            None => !has_block(doc@, name@),
        },
{
    let dlen = doc.unicode_len();
    let mut i: usize = 0;
    while i < dlen
        invariant
            0 <= i <= dlen,
            dlen == doc@.len(),
            valid_name(name@),
            forall|j: int| 0 <= j < i ==> !is_header_at(doc@, name@, j),
        decreases dlen - i,
    {
        if header_at_exec(doc, name, i) {
            return Some(i);
        }
        i += 1;
    }
    assert forall|j: int| !is_header_at(doc@, name@, j) by {
        if 0 <= j < dlen {
        } else if j >= dlen {
            assert(header_line(name@).len() > 0);
        }
    }
    None
}

/// Two headers at the same position carry the same key.
pub proof fn lemma_header_same_pos(s: Seq<char>, n1: Seq<char>, n2: Seq<char>, i: int)
    requires
        valid_name(n1),
        valid_name(n2),
        is_header_at(s, n1, i),
        is_header_at(s, n2, i),
    ensures
        n1 == n2,
{
    let h1 = header_line(n1);
    let h2 = header_line(n2);
    assert forall|k: int| 0 <= k < h1.len() implies s[i + k] == h1[k] by {
        assert(s.subrange(i, i + h1.len() as int)[k] == h1[k]);
    }
    assert forall|k: int| 0 <= k < h2.len() implies s[i + k] == h2[k] by {
        assert(s.subrange(i, i + h2.len() as int)[k] == h2[k]);
    }
    if n1.len() < n2.len() {
        assert(s[i + 2 + n1.len()] == h1[2 + n1.len() as int]);
        assert(h1[2 + n1.len() as int] == ':');
        assert(h2[2 + n1.len() as int] == n2[n1.len() as int]);
        assert(name_char(n2[n1.len() as int]));
    } else if n2.len() < n1.len() {
        assert(s[i + 2 + n2.len()] == h2[2 + n2.len() as int]);
        assert(h2[2 + n2.len() as int] == ':');
        assert(h1[2 + n2.len() as int] == n1[n2.len() as int]);
        assert(name_char(n1[n2.len() as int]));
    } else {
        assert forall|k: int| 0 <= k < n1.len() implies n1[k] == n2[k] by {
            assert(h1[2 + k] == n1[k]);
            assert(h2[2 + k] == n2[k]);
        }
        assert(n1 =~= n2);
    }
}

/// The header of a different key cannot lie inside a block's extent: every
/// line boundary there begins a continuation line, and a header line does
/// not.
pub proof fn lemma_header_not_in_extent(
    s: Seq<char>,
    name: Seq<char>,
    other: Seq<char>,
    start: int,
    end: int,
    h: int,
)
    requires
        valid_name(name),
        valid_name(other),
        name != other,
        is_header_at(s, name, start),
        is_extent_end(s, start, end),
        is_header_at(s, other, h),
    ensures
        h < start || h >= end,
{
    if h == start {
        lemma_header_same_pos(s, name, other, start);
    } else if start < h < end {
        assert(is_cont_at(s, h));
        let h2 = header_line(other);
        assert(s.subrange(h, h + h2.len() as int)[2] == h2[2]);
        assert(h2[2] == other[0]);
        assert(name_char(other[0]));
        assert(s[h + 2] == ' ');
    }
}

/// A header entirely before a removed extent, or entirely after it, is
/// still a header of the spliced document, and no header of the spliced
/// document straddles the splice point. The splice removes `[a, b)` where
/// both `a` and `b` sit on line boundaries.
pub proof fn lemma_splice_headers(s: Seq<char>, a: int, b: int, name: Seq<char>)
    requires
        valid_name(name),
        0 <= a <= b <= s.len(),
        is_line_start(s, a),
        b == s.len() || is_line_start(s, b),
    ensures
        forall|p: int|
            0 <= p && p + header_line(name).len() <= a ==> (is_header_at(
                s.take(a) + s.skip(b),
                name,
                p,
            ) <==> is_header_at(s, name, p)),
        forall|p: int|
            a <= p ==> (is_header_at(s.take(a) + s.skip(b), name, p) <==> is_header_at(
                s,
                name,
                p + (b - a),
            )),
        forall|p: int|
            0 <= p < a < p + header_line(name).len() ==> !is_header_at(
                s.take(a) + s.skip(b),
                name,
                p,
            ),
{
    let r = s.take(a) + s.skip(b);
    let h = header_line(name);
    let d = b - a;
    assert(r.len() == s.len() - d);
    assert forall|k: int| 0 <= k < r.len() implies r[k] == (if k < a {
        s[k]
    } else {
        s[k + d]
    }) by {}
    assert forall|k: int| 0 <= k < h.len() implies h[k] != '\n' by {
        if k < 2 {
        } else if k < 2 + name.len() {
            assert(h[k] == name[k - 2]);
            assert(name_char(name[k - 2]));
        } else {
            assert(h[k] == ':');
        }
    }
    // Headers entirely before the splice point.
    assert forall|p: int| 0 <= p && p + h.len() <= a implies (is_header_at(r, name, p)
        <==> is_header_at(s, name, p)) by {
        if p + h.len() == a {
            // The character just before `a` is a line break, yet it would be
            // the header's final colon: neither document has a header here.
            assert(a > 0 && s[a - 1] == '\n');
            if is_header_at(s, name, p) {
                assert(s.subrange(p, p + h.len() as int)[h.len() - 1] == h[h.len() - 1]);
            }
            if is_header_at(r, name, p) {
                assert(r.subrange(p, p + h.len() as int)[h.len() - 1] == h[h.len() - 1]);
                assert(r[a - 1] == s[a - 1]);
            }
        } else {
            if is_header_at(s, name, p) {
                assert(r.subrange(p, p + h.len() as int) =~= s.subrange(p, p + h.len() as int));
                assert(is_header_at(r, name, p));
            }
            if is_header_at(r, name, p) {
                assert(s.subrange(p, p + h.len() as int) =~= r.subrange(p, p + h.len() as int));
                assert(is_header_at(s, name, p));
            }
        }
    }
    // Headers at or after the splice point, shifted by the removed length.
    assert forall|p: int| a <= p implies (is_header_at(r, name, p) <==> is_header_at(
        s,
        name,
        p + d,
    )) by {
        if p + h.len() <= r.len() {
            assert(r.subrange(p, p + h.len() as int) =~= s.subrange(p + d, p + d + h.len() as int));
            if p == a {
                if a == 0 {
                    if b == s.len() {
                        // Both sides are too short to hold a header here.
                    } else {
                        assert(is_line_start(s, b));
                    }
                } else {
                    assert(r[p - 1] == s[a - 1]);
                    if b < s.len() {
                        assert(is_line_start(s, b));
                    }
                }
            } else {
                assert(r[p - 1] == s[p - 1 + d]);
            }
            if p + h.len() < r.len() {
                assert(r[p + h.len()] == s[p + d + h.len()]);
            }
        } else {
            // Too close to the end for a header on either side.
            assert(!is_header_at(r, name, p));
            assert(!is_header_at(s, name, p + d));
        }
    }
    // No header of the spliced document straddles the splice point.
    assert forall|p: int| 0 <= p < a < p + h.len() implies !is_header_at(r, name, p) by {
        assert(a > 0 && s[a - 1] == '\n');
        if is_header_at(r, name, p) {
            assert(r[a - 1] == s[a - 1]);
            assert(r.subrange(p, p + h.len() as int)[a - 1 - p] == h[a - 1 - p]);
        }
    }
}

/// No character of a header's line is a line break, so no position strictly
/// inside the header text begins a line.
pub proof fn lemma_header_no_newline(s: Seq<char>, name: Seq<char>, i: int)
    requires
        valid_name(name),
        is_header_at(s, name, i),
    ensures
        forall|k: int| i <= k < i + header_line(name).len() ==> s[k] != '\n',
{
    let h = header_line(name);
    assert forall|k: int| i <= k < i + h.len() implies s[k] != '\n' by {
        assert(s.subrange(i, i + h.len() as int)[k - i] == h[k - i]);
        if k - i == 0 || k - i == 1 {
        } else if k - i < 2 + name.len() {
            assert(h[k - i] == name[k - i - 2]);
            assert(name_char(name[k - i - 2]));
        } else {
            assert(h[k - i] == ':');
        }
    }
}

/// Is the line starting at `i` a continuation line?
fn cont_at_exec(doc: &str, i: usize) -> (b: bool)
    requires
        i <= doc@.len(),
    ensures
        b == is_cont_at(doc@, i as int),
{
    let dlen = doc.unicode_len();
    if dlen - i < 3 {
        return false;
    }
    doc.get_char(i) == ' ' && doc.get_char(i + 1) == ' ' && doc.get_char(i + 2) == ' '
}

/// The start of the line following the one that position `j` lies in.
fn next_line_start_exec(doc: &str, j: usize) -> (r: usize)
    requires
        j < doc@.len(),
    ensures
        j < r <= doc@.len(),
        r == doc@.len() || doc@[r - 1] == '\n',
        forall|k: int| j <= k < r - 1 ==> doc@[k] != '\n',
{
    let dlen = doc.unicode_len();
    let mut k = j;
    while k < dlen
        invariant
            j <= k <= dlen,
            dlen == doc@.len(),
            forall|m: int| j <= m < k ==> doc@[m] != '\n',
        decreases dlen - k,
    {
        if doc.get_char(k) == '\n' {
            return k + 1;
        }
        k += 1;
    }
    dlen
}

/// Walks line by line from the first boundary after a block's header until
/// the first line that is not a continuation line.
fn extent_from(doc: &str, start: usize, after: usize) -> (e: usize)
    requires
        start < after <= doc@.len(),
        after == doc@.len() || is_line_start(doc@, after as int),
        forall|k: int| start < k < after ==> !is_line_start(doc@, k),
    ensures
        is_extent_end(doc@, start as int, e as int),
{
    let dlen = doc.unicode_len();
    let mut j = after;
    loop
        invariant
            start < j <= dlen,
            dlen == doc@.len(),
            j == dlen || is_line_start(doc@, j as int),
            forall|l: int| start < l < j && is_line_start(doc@, l) ==> is_cont_at(doc@, l),
        decreases dlen - j,
    {
        if j == dlen {
            return j;
        }
        if !cont_at_exec(doc, j) {
            return j;
        }
        let nj = next_line_start_exec(doc, j);
        proof {
            assert forall|l: int|
                start < l < nj && is_line_start(doc@, l) implies is_cont_at(doc@, l) by {
                if l < j {
                } else if l == j {
                } else {
                    assert(doc@[l - 1] != '\n');
                }
            }
        }
        j = nj;
    }
}

/// Removing the only block keyed by `name` leaves a document in which no
/// block with that key exists: `remove` followed by the existence test
/// returns false. The hypotheses are exactly what `remove`'s contract
/// establishes, plus the document invariant that the key was unique.
pub proof fn law_remove_then_absent(s: Seq<char>, name: Seq<char>, start: int, end: int)
    requires
        valid_name(name),
        is_header_at(s, name, start),
        forall|j: int| is_header_at(s, name, j) ==> j == start,
        is_extent_end(s, start, end),
    ensures
        !has_block(s.take(start) + s.skip(end), name),
{
    let r = s.take(start) + s.skip(end);
    let h = header_line(name);
    lemma_splice_headers(s, start, end, name);
    assert forall|p: int| !is_header_at(r, name, p) by {
        if 0 <= p && p + h.len() <= start {
            if is_header_at(r, name, p) {
                assert(is_header_at(s, name, p));
            }
        } else if p >= start {
            if is_header_at(r, name, p) {
                assert(is_header_at(s, name, p + (end - start)));
                assert(p + (end - start) == start);
            }
        } else if 0 <= p < start < p + h.len() {
        }
    }
}

/// Removing the block keyed by `name` leaves the block of every other key
/// in place, character for character: a header before the removed extent
/// keeps its position, one after it shifts left by the extent's length, and
/// every character outside the extent is preserved.
pub proof fn law_remove_preserves_other(
    s: Seq<char>,
    name: Seq<char>,
    other: Seq<char>,
    start: int,
    end: int,
    h: int,
)
    requires
        valid_name(name),
        valid_name(other),
        name != other,
        is_header_at(s, name, start),
        is_extent_end(s, start, end),
        is_header_at(s, other, h),
    ensures
        h < start || h >= end,
        h < start ==> is_header_at(s.take(start) + s.skip(end), other, h),
        h >= end ==> is_header_at(s.take(start) + s.skip(end), other, h - (end - start)),
        has_block(s.take(start) + s.skip(end), other),
        forall|k: int| 0 <= k < start ==> (s.take(start) + s.skip(end))[k] == s[k],
        forall|k: int|
            end <= k < s.len() ==> (s.take(start) + s.skip(end))[k - (end - start)] == s[k],
{
    lemma_header_not_in_extent(s, name, other, start, end, h);
    lemma_splice_headers(s, start, end, other);
    if h < start {
        // The other header's line ends strictly before the removed extent:
        // a line break would otherwise sit inside its header text.
        lemma_header_no_newline(s, other, h);
        let hl = header_line(other);
        assert(h + hl.len() <= start) by {
            if h + hl.len() > start {
                assert(start > 0 && s[start - 1] == '\n');
                assert(h <= start - 1 < h + hl.len());
            }
        }
    } else {
        assert(h - (end - start) >= start);
        assert(is_header_at(s.take(start) + s.skip(end), other, h - (end - start)));
    }
}

/// Appending text to a document leaves every block already present in
/// place, at its position: the appended block cannot disturb an existing
/// one.
pub proof fn law_add_preserves_existing_blocks(s: Seq<char>, tail: Seq<char>, b: Seq<char>, h: int)
    requires
        is_header_at(s, b, h),
    ensures
        is_header_at(with_final_newline(s) + tail, b, h),
        has_block(with_final_newline(s) + tail, b),
{
    let w = with_final_newline(s);
    let t = w + tail;
    let hl = header_line(b);
    assert forall|k: int| 0 <= k < s.len() implies t[k] == s[k] by {}
    assert(t.subrange(h, h + hl.len() as int) =~= s.subrange(h, h + hl.len() as int));
    if h + hl.len() == s.len() {
        // The header ran to the end of the document, so the document did
        // not end in a line break and the appended separator now follows
        // the header.
        assert(s[s.len() - 1] == ':') by {
            assert(s.subrange(h, h + hl.len() as int)[hl.len() - 1] == hl[hl.len() - 1]);
        }
        assert(w == s + seq!['\n']);
        assert(t[h + hl.len()] == '\n');
    } else {
        assert(t[h + hl.len()] == s[h + hl.len()]);
    }
    assert(is_header_at(t, b, h));
}

/// Replacing the digits of a block's `replicas` field touches nothing
/// outside the digit run, which lies strictly inside that block's extent:
/// the header of every other key is still a header of the result, and
/// every character outside the digit run is preserved. The hypotheses are
/// exactly what `set_replicas`'s contract establishes.
pub proof fn law_set_replicas_preserves_other(
    s: Seq<char>,
    name: Seq<char>,
    other: Seq<char>,
    start: int,
    end: int,
    p: int,
    q: int,
    n: nat,
    h: int,
)
    requires
        valid_name(name),
        valid_name(other),
        name != other,
        is_header_at(s, name, start),
        is_extent_end(s, start, end),
        is_first_replicas_at(s, start, end, p),
        is_digit_run_end(s, p + "replicas: "@.len(), q),
        is_header_at(s, other, h),
    ensures
        h < start || h >= end,
        h < start ==> is_header_at(
            s.take(p + "replicas: "@.len()) + dec_str(n) + s.skip(q),
            other,
            h,
        ),
        h >= end ==> is_header_at(
            s.take(p + "replicas: "@.len()) + dec_str(n) + s.skip(q),
            other,
            h - q + p + "replicas: "@.len() + dec_str(n).len(),
        ),
        has_block(s.take(p + "replicas: "@.len()) + dec_str(n) + s.skip(q), other),
        forall|k: int|
            0 <= k < p + "replicas: "@.len() ==> (s.take(p + "replicas: "@.len()) + dec_str(n)
                + s.skip(q))[k] == s[k],
        forall|k: int|
            q <= k < s.len() ==> (s.take(p + "replicas: "@.len()) + dec_str(n) + s.skip(q))[k - q
                + p + "replicas: "@.len() + dec_str(n).len()] == s[k],
{
    reveal_strlit("replicas: ");
    let pat = "replicas: "@;
    let plen = pat.len() as int;
    let d0 = p + plen;
    let mid = dec_str(n);
    let t = s.take(d0) + mid + s.skip(q);
    let hl = header_line(other);
    assert(plen == 10);
    assert(t.len() == s.len() - (q - d0) + mid.len());
    assert forall|k: int| 0 <= k < t.len() implies t[k] == (if k < d0 {
        s[k]
    } else if k < d0 + mid.len() {
        mid[k - d0]
    } else {
        s[k - d0 - mid.len() + q]
    }) by {}
    lemma_header_not_in_extent(s, name, other, start, end, h);
    // The digit run lies strictly inside the extent.
    assert(s.subrange(p, p + plen) == pat);
    assert(start <= p && d0 <= end);
    assert(start < d0) by {
        assert(s.subrange(p, p + plen)[plen - 1] == pat[plen - 1]);
    }
    if end < s.len() {
        assert(d0 < end) by {
            if d0 == end {
                assert(is_line_start(s, end));
                assert(s.subrange(p, p + plen)[plen - 1] == pat[plen - 1]);
                assert(pat[plen - 1] == ' ');
                assert(s[end - 1] == '\n');
            }
        }
        assert(q < end) by {
            if q >= end {
                assert(is_line_start(s, end));
                assert(s[end - 1] == '\n');
                assert(is_digit(s[end - 1]));
            }
        }
    } else {
        assert(q <= end);
    }
    if h < start {
        lemma_header_no_newline(s, other, h);
        assert(h + hl.len() <= start) by {
            if h + hl.len() > start {
                assert(start > 0 && s[start - 1] == '\n');
                assert(h <= start - 1 < h + hl.len());
            }
        }
        assert(is_header_at(t, other, h)) by {
            assert(t.subrange(h, h + hl.len() as int) =~= s.subrange(h, h + hl.len() as int));
            if h > 0 {
                assert(t[h - 1] == s[h - 1]);
            }
            assert(t[h + hl.len()] == s[h + hl.len()]);
        }
    } else {
        // Every header position fits inside the document, so this case
        // only arises when the extent ends before the document does.
        assert(h + hl.len() <= s.len());
        assert(h < s.len());
        assert(end < s.len() || h >= s.len());
        let sh = h - q + d0 + mid.len();
        assert(h > q);
        assert(is_header_at(t, other, sh)) by {
            assert(t.subrange(sh, sh + hl.len() as int) =~= s.subrange(h, h + hl.len() as int));
            assert(t[sh - 1] == s[h - 1]);
            if h + hl.len() < s.len() {
                assert(t[sh + hl.len()] == s[h + hl.len()]);
            }
        }
    }
}

/// A decimal digit.
pub open spec fn is_digit(c: char) -> bool {
    '0' <= c && c <= '9'
}

/// `p` is the first position at or after `start` where a `replicas: ` field
/// begins, and the field lies inside the extent closed by `end`.
pub open spec fn is_first_replicas_at(s: Seq<char>, start: int, end: int, p: int) -> bool {
    &&& start <= p
    &&& p + "replicas: "@.len() <= end
    &&& occurs_at(s, "replicas: "@, p)
    &&& forall|q: int|
        start <= q < p && q + "replicas: "@.len() <= end ==> !occurs_at(s, "replicas: "@, q)
}

/// A `replicas: ` field begins somewhere inside `[start, end)`.
pub open spec fn has_replicas_in(s: Seq<char>, start: int, end: int) -> bool {
    exists|p: int| start <= p && p + "replicas: "@.len() <= end && occurs_at(s, "replicas: "@, p)
}

/// The position of the first `replicas: ` field inside the extent.
pub open spec fn replicas_pos(s: Seq<char>, start: int, end: int) -> int {
    choose|p: int| is_first_replicas_at(s, start, end, p)
}

/// `q` closes the run of digits starting at `d0`.
pub open spec fn is_digit_run_end(s: Seq<char>, d0: int, q: int) -> bool {
    &&& d0 <= q <= s.len()
    &&& (q == s.len() || !is_digit(s[q]))
    &&& forall|k: int| d0 <= k < q ==> is_digit(s[k])
}

/// The end of the run of digits starting at `d0`.
pub open spec fn digit_run_end(s: Seq<char>, d0: int) -> int {
    choose|q: int| is_digit_run_end(s, d0, q)
}

pub proof fn lemma_first_replicas_unique(s: Seq<char>, start: int, end: int, p1: int, p2: int)
    requires
        is_first_replicas_at(s, start, end, p1),
        is_first_replicas_at(s, start, end, p2),
    ensures
        p1 == p2,
{
}

pub proof fn lemma_digit_run_end_unique(s: Seq<char>, d0: int, q1: int, q2: int)
    requires
        is_digit_run_end(s, d0, q1),
        is_digit_run_end(s, d0, q2),
    ensures
        q1 == q2,
{
}

/// The text that introduces the value of one metadata label inside a
/// block.
pub open spec fn label_prefix(key: Seq<char>) -> Seq<char> {
    "          - \""@ + key + "="@
}

/// `p` is the first position at or after `start` where the label keyed by
/// `key` begins, inside the extent closed by `end`.
pub open spec fn is_first_label_at(
    s: Seq<char>,
    start: int,
    end: int,
    key: Seq<char>,
    p: int,
) -> bool {
    &&& start <= p
    &&& p + label_prefix(key).len() <= end
    &&& occurs_at(s, label_prefix(key), p)
    &&& forall|q: int|
        start <= q < p && q + label_prefix(key).len() <= end ==> !occurs_at(
            s,
            label_prefix(key),
            q,
        )
}

/// A label keyed by `key` begins somewhere inside `[start, end)`.
pub open spec fn has_label_in(s: Seq<char>, start: int, end: int, key: Seq<char>) -> bool {
    exists|p: int| start <= p && p + label_prefix(key).len() <= end && occurs_at(s, label_prefix(key), p)
}

/// The position of the first label keyed by `key` inside the extent.
pub open spec fn label_pos(s: Seq<char>, start: int, end: int, key: Seq<char>) -> int {
    choose|p: int| is_first_label_at(s, start, end, key, p)
}

/// `q` closes the value that starts at `v0`: the first closing quote.
pub open spec fn is_value_end(s: Seq<char>, v0: int, q: int) -> bool {
    &&& v0 <= q <= s.len()
    &&& (q == s.len() || s[q] == '"')
    &&& forall|k: int| v0 <= k < q ==> s[k] != '"'
}

/// The end of the value starting at `v0`.
pub open spec fn value_end(s: Seq<char>, v0: int) -> int {
    choose|q: int| is_value_end(s, v0, q)
}

pub proof fn lemma_first_label_unique(
    s: Seq<char>,
    start: int,
    end: int,
    key: Seq<char>,
    p1: int,
    p2: int,
)
    requires
        is_first_label_at(s, start, end, key, p1),
        is_first_label_at(s, start, end, key, p2),
    ensures
        p1 == p2,
{
}

pub proof fn lemma_value_end_unique(s: Seq<char>, v0: int, q1: int, q2: int)
    requires
        is_value_end(s, v0, q1),
        is_value_end(s, v0, q2),
    ensures
        q1 == q2,
{
}

/// A document followed by a line break, unless it is empty or already ends
/// with one: what a block is appended after.
pub open spec fn with_final_newline(s: Seq<char>) -> Seq<char> {
    if s.len() == 0 || s[s.len() - 1] == '\n' {
        s
    } else {
        s + seq!['\n']
    }
}

/// The `image:` line of a rendered block.
pub open spec fn image_line(name: Seq<char>) -> Seq<char> {
    "    image: registry:5000/"@ + name + ":latest\n"@
}

/// The `replicas:` line of a rendered block.
pub open spec fn replicas_line(replicas: nat) -> Seq<char> {
    "        replicas: "@ + dec_str(replicas) + "\n"@
}

/// The resource-limit boilerplate of a rendered block.
pub open spec fn resources_lines() -> Seq<char> {
    "        resources:\n            limits:\n                cpus: \"1.5\"\n                memory: 1G\n            reservations:\n                cpus: \"0.5\"\n                memory: 256M\n"@
}

/// The routing labels of a rendered block, derived from the application's
/// domain.
pub open spec fn routing_labels(name: Seq<char>, domain: Seq<char>, port: Seq<char>) -> Seq<
    char,
> {
    "        labels:\n"@ + "          - \"traefik.enable=true\"\n"@
        + "          - \"traefik.http.routers."@ + name + ".rule=Host(`"@ + domain + "`)\"\n"@
        + "          - \"traefik.http.routers."@ + name + ".entrypoints=web,websecure\"\n"@
        + "          - \"traefik.http.routers."@ + name + ".tls.certresolver=myresolver\"\n"@
        + "          - \"traefik.http.services."@ + name + ".loadbalancer.server.port="@ + port
        + "\"\n"@
}

/// One metadata label line of a rendered block.
pub open spec fn label_line(key: Seq<char>, value: Seq<char>) -> Seq<char> {
    "          - \""@ + key + "="@ + value + "\"\n"@
}

/// The metadata labels of a rendered block: the application descriptor
/// re-expressed for later discovery.
pub open spec fn metadata_labels(
    name: Seq<char>,
    kind: Seq<char>,
    url: Seq<char>,
    domain: Seq<char>,
    created: Seq<char>,
) -> Seq<char> {
    label_line("com.myapp.name"@, name) + label_line("com.myapp.image"@, name + ":latest"@)
        + label_line("com.myapp.type"@, kind) + label_line("com.myapp.github_url"@, url)
        + label_line("com.myapp.domain"@, domain) + label_line("com.myapp.created_at"@, created)
}

/// The body of a rendered service block: every line after the header, each
/// indented more deeply than the header, ending in a separating blank line.
pub open spec fn block_body(
    name: Seq<char>,
    kind: Seq<char>,
    url: Seq<char>,
    domain: Seq<char>,
    created: Seq<char>,
    port: Seq<char>,
    replicas: nat,
) -> Seq<char> {
    image_line(name) + "    deploy:\n"@ + "        mode: replicated\n"@ + replicas_line(replicas)
        + resources_lines() + routing_labels(name, domain, port) + metadata_labels(
        name,
        kind,
        url,
        domain,
        created,
    ) + "    networks:\n        - nephelios_overlay\n\n"@
}

/// The full rendered service block: the header line, a line break, and the
/// block body.
pub open spec fn block_text(
    name: Seq<char>,
    kind: Seq<char>,
    url: Seq<char>,
    domain: Seq<char>,
    created: Seq<char>,
    port: Seq<char>,
    replicas: nat,
) -> Seq<char> {
    header_line(name) + seq!['\n'] + block_body(name, kind, url, domain, created, port, replicas)
}

/// Every line break inside `t` opens a blank line or a line indented by
/// at least three spaces — so no line of `t`, after its first, can be a
/// service-level header line.
pub open spec fn nl_indented_within(t: Seq<char>) -> bool {
    forall|k: int|
        0 <= k && k + 3 < t.len() && #[trigger] t[k] == '\n' ==> t[k + 1] == '\n' || (t[k + 1]
            == ' ' && t[k + 2] == ' ' && t[k + 3] == ' ')
}

/// No line break sits among the last few characters of `t`, except
/// possibly as its very last character.
pub open spec fn no_late_nl(t: Seq<char>) -> bool {
    forall|k: int| 0 <= k && t.len() - 3 <= k < t.len() - 1 ==> #[trigger] t[k] != '\n'
}

/// `t` opens with a blank line or a continuation indentation.
pub open spec fn starts_indented(t: Seq<char>) -> bool {
    t.len() >= 3 && (t[0] == '\n' || (t[0] == ' ' && t[1] == ' ' && t[2] == ' '))
}

/// `t` is a single line: line-break free except for its final character.
pub open spec fn line_text(t: Seq<char>) -> bool {
    &&& t.len() > 0
    &&& t[t.len() - 1] == '\n'
    &&& forall|k: int| 0 <= k < t.len() - 1 ==> #[trigger] t[k] != '\n'
}

proof fn lemma_line_text_props(t: Seq<char>)
    requires
        line_text(t),
    ensures
        nl_indented_within(t),
        no_late_nl(t),
{
}

/// Concatenation keeps the indentation discipline, provided the left part
/// has no stray line break near its end and the right part opens with a
/// continuation whenever the left ends at a line boundary.
proof fn lemma_nl_indented_concat(x: Seq<char>, y: Seq<char>)
    requires
        nl_indented_within(x),
        nl_indented_within(y),
        no_late_nl(x),
        (x.len() > 0 && x[x.len() - 1] == '\n') ==> starts_indented(y),
    ensures
        nl_indented_within(x + y),
{
    let t = x + y;
    assert forall|k: int|
        0 <= k && k + 3 < t.len() && #[trigger] t[k] == '\n' implies t[k + 1] == '\n' || (t[k
        + 1] == ' ' && t[k + 2] == ' ' && t[k + 3] == ' ') by {
        if k + 3 < x.len() {
            assert(x[k] == '\n');
        } else if k >= x.len() {
            assert(y[k - x.len()] == '\n');
            assert(t[k + 1] == y[k - x.len() + 1]);
            assert(t[k + 2] == y[k - x.len() + 2]);
            assert(t[k + 3] == y[k - x.len() + 3]);
        } else if k < x.len() - 1 {
            // A line break here would be a stray one near x's end.
            assert(x[k] != '\n');
        } else {
            // x ends with this line break, so y opens the next line.
            assert(t[k + 1] == y[0]);
            assert(t[k + 2] == y[1]);
            assert(t[k + 3] == y[2]);
        }
    }
}

/// The late-break freedom of a concatenation comes from its right part
/// alone, once that part is long enough.
proof fn lemma_no_late_nl_concat(x: Seq<char>, y: Seq<char>)
    requires
        y.len() >= 3,
        no_late_nl(y),
    ensures
        no_late_nl(x + y),
{
    let t = x + y;
    assert forall|k: int| t.len() - 3 <= k < t.len() - 1 implies #[trigger] t[k] != '\n' by {
        assert(t[k] == y[k - x.len()]);
    }
}

/// A chunk of a rendered block below its header: it opens at a
/// continuation indentation, closes at a line boundary, and every line
/// inside keeps the indentation discipline.
pub open spec fn block_chunk(t: Seq<char>) -> bool {
    &&& nl_indented_within(t)
    &&& no_late_nl(t)
    &&& starts_indented(t)
    &&& t.len() >= 3
    &&& t[t.len() - 1] == '\n'
}

/// A single indented line is a chunk.
proof fn lemma_line_unit_chunk(t: Seq<char>)
    requires
        line_text(t),
        starts_indented(t),
    ensures
        block_chunk(t),
{
    lemma_line_text_props(t);
}

/// Extends a disciplined prefix by one chunk.
proof fn lemma_chunk_extend(cur: Seq<char>, u: Seq<char>)
    requires
        nl_indented_within(cur),
        no_late_nl(cur),
        cur.len() > 0,
        cur[cur.len() - 1] == '\n',
        block_chunk(u),
    ensures
        nl_indented_within(cur + u),
        no_late_nl(cur + u),
        (cur + u).len() > 0,
        (cur + u)[(cur + u).len() - 1] == '\n',
{
    lemma_nl_indented_concat(cur, u);
    lemma_no_late_nl_concat(cur, u);
    assert((cur + u)[(cur + u).len() - 1] == u[u.len() - 1]);
}

/// Line-break-free texts concatenate to a line-break-free text.
proof fn lemma_line_safe_concat(x: Seq<char>, y: Seq<char>)
    requires
        line_safe(x),
        line_safe(y),
    ensures
        line_safe(x + y),
{
    assert forall|k: int| 0 <= k < (x + y).len() implies (x + y)[k] != '\n' by {
        if k < x.len() {
            assert((x + y)[k] == x[k]);
        } else {
            assert((x + y)[k] == y[k - x.len()]);
        }
    }
}

/// A line-break-free prefix followed by a single line is a single line.
proof fn lemma_line_prepend(x: Seq<char>, y: Seq<char>)
    requires
        line_safe(x),
        line_text(y),
    ensures
        line_text(x + y),
{
    assert forall|k: int| 0 <= k < (x + y).len() - 1 implies (x + y)[k] != '\n' by {
        if k < x.len() {
            assert((x + y)[k] == x[k]);
        } else {
            assert((x + y)[k] == y[k - x.len()]);
        }
    }
    assert((x + y)[(x + y).len() - 1] == y[y.len() - 1]);
}

/// A valid name holds no line break.
pub proof fn lemma_valid_name_line_safe(n: Seq<char>)
    requires
        valid_name(n),
    ensures
        line_safe(n),
{
    assert forall|k: int| 0 <= k < n.len() implies n[k] != '\n' by {
        assert(name_char(n[k]));
    }
}

/// A decimal rendering holds no line break.
proof fn lemma_dec_line_safe(n: nat)
    ensures
        line_safe(dec_str(n)),
{
    crate::text::lemma_dec_str_digits(n);
    assert forall|k: int| 0 <= k < dec_str(n).len() implies dec_str(n)[k] != '\n' by {
        assert('0' <= dec_str(n)[k] && dec_str(n)[k] <= '9');
    }
}

/// A metadata label line is a single indented line.
proof fn lemma_label_line_chunk(key: Seq<char>, value: Seq<char>)
    requires
        line_safe(key),
        line_safe(value),
    ensures
        block_chunk(label_line(key, value)),
{
    reveal_strlit("          - \"");
    reveal_strlit("=");
    reveal_strlit("\"\n");
    assert(line_safe("          - \""@)) by {
        assert forall|k: int|
            0 <= k < "          - \""@.len() implies "          - \""@[k] != '\n' by {}
    }
    assert(line_safe("="@)) by {
        assert forall|k: int| 0 <= k < "="@.len() implies "="@[k] != '\n' by {}
    }
    assert(line_text("\"\n"@)) by {
        assert forall|k: int| 0 <= k < "\"\n"@.len() - 1 implies "\"\n"@[k] != '\n' by {}
    }
    lemma_line_safe_concat("          - \""@, key);
    lemma_line_safe_concat("          - \""@ + key, "="@);
    lemma_line_safe_concat("          - \""@ + key + "="@, value);
    lemma_line_prepend("          - \""@ + key + "="@ + value, "\"\n"@);
    assert(starts_indented(label_line(key, value))) by {
        assert(label_line(key, value)[0] == "          - \""@[0]);
        assert(label_line(key, value)[1] == "          - \""@[1]);
        assert(label_line(key, value)[2] == "          - \""@[2]);
    }
    lemma_line_unit_chunk(label_line(key, value));
}

/// The metadata label section is a disciplined chunk.
proof fn lemma_metadata_labels_chunk(
    name: Seq<char>,
    kind: Seq<char>,
    url: Seq<char>,
    domain: Seq<char>,
    created: Seq<char>,
)
    requires
        valid_name(name),
        line_safe(kind),
        line_safe(url),
        line_safe(domain),
        line_safe(created),
    ensures
        block_chunk(metadata_labels(name, kind, url, domain, created)),
{
    reveal_strlit("com.myapp.name");
    reveal_strlit("com.myapp.image");
    reveal_strlit("com.myapp.type");
    reveal_strlit("com.myapp.github_url");
    reveal_strlit("com.myapp.domain");
    reveal_strlit("com.myapp.created_at");
    reveal_strlit(":latest");
    lemma_valid_name_line_safe(name);
    assert(line_safe("com.myapp.name"@)) by {
        assert forall|k: int|
            0 <= k < "com.myapp.name"@.len() implies "com.myapp.name"@[k] != '\n' by {}
    }
    assert(line_safe("com.myapp.image"@)) by {
        assert forall|k: int|
            0 <= k < "com.myapp.image"@.len() implies "com.myapp.image"@[k] != '\n' by {}
    }
    assert(line_safe("com.myapp.type"@)) by {
        assert forall|k: int|
            0 <= k < "com.myapp.type"@.len() implies "com.myapp.type"@[k] != '\n' by {}
    }
    assert(line_safe("com.myapp.github_url"@)) by {
        assert forall|k: int|
            0 <= k < "com.myapp.github_url"@.len() implies "com.myapp.github_url"@[k]
                != '\n' by {}
    }
    assert(line_safe("com.myapp.domain"@)) by {
        assert forall|k: int|
            0 <= k < "com.myapp.domain"@.len() implies "com.myapp.domain"@[k] != '\n' by {}
    }
    assert(line_safe("com.myapp.created_at"@)) by {
        assert forall|k: int|
            0 <= k < "com.myapp.created_at"@.len() implies "com.myapp.created_at"@[k]
                != '\n' by {}
    }
    assert(line_safe(":latest"@)) by {
        assert forall|k: int| 0 <= k < ":latest"@.len() implies ":latest"@[k] != '\n' by {}
    }
    lemma_line_safe_concat(name, ":latest"@);
    let l1 = label_line("com.myapp.name"@, name);
    let l2 = label_line("com.myapp.image"@, name + ":latest"@);
    let l3 = label_line("com.myapp.type"@, kind);
    let l4 = label_line("com.myapp.github_url"@, url);
    let l5 = label_line("com.myapp.domain"@, domain);
    let l6 = label_line("com.myapp.created_at"@, created);
    lemma_label_line_chunk("com.myapp.name"@, name);
    lemma_label_line_chunk("com.myapp.image"@, name + ":latest"@);
    lemma_label_line_chunk("com.myapp.type"@, kind);
    lemma_label_line_chunk("com.myapp.github_url"@, url);
    lemma_label_line_chunk("com.myapp.domain"@, domain);
    lemma_label_line_chunk("com.myapp.created_at"@, created);
    lemma_chunk_extend(l1, l2);
    lemma_chunk_extend(l1 + l2, l3);
    lemma_chunk_extend(l1 + l2 + l3, l4);
    lemma_chunk_extend(l1 + l2 + l3 + l4, l5);
    lemma_chunk_extend(l1 + l2 + l3 + l4 + l5, l6);
    let ml = metadata_labels(name, kind, url, domain, created);
    assert(ml == l1 + l2 + l3 + l4 + l5 + l6);
    assert(starts_indented(ml)) by {
        assert(ml[0] == l1[0] && ml[1] == l1[1] && ml[2] == l1[2]);
        assert(starts_indented(l1));
    }
}

/// The routing label section is a disciplined chunk.
proof fn lemma_routing_labels_chunk(name: Seq<char>, domain: Seq<char>, port: Seq<char>)
    requires
        valid_name(name),
        line_safe(domain),
        line_safe(port),
    ensures
        block_chunk(routing_labels(name, domain, port)),
{
    reveal_strlit("        labels:\n");
    reveal_strlit("          - \"traefik.enable=true\"\n");
    reveal_strlit("          - \"traefik.http.routers.");
    reveal_strlit(".rule=Host(`");
    reveal_strlit("`)\"\n");
    reveal_strlit(".entrypoints=web,websecure\"\n");
    reveal_strlit(".tls.certresolver=myresolver\"\n");
    reveal_strlit("          - \"traefik.http.services.");
    reveal_strlit(".loadbalancer.server.port=");
    reveal_strlit("\"\n");
    lemma_valid_name_line_safe(name);
    let l0 = "        labels:\n"@;
    let l1 = "          - \"traefik.enable=true\"\n"@;
    let l2 = "          - \"traefik.http.routers."@ + name + ".rule=Host(`"@ + domain + "`)\"\n"@;
    let l3 = "          - \"traefik.http.routers."@ + name + ".entrypoints=web,websecure\"\n"@;
    let l4 = "          - \"traefik.http.routers."@ + name + ".tls.certresolver=myresolver\"\n"@;
    let l5 = "          - \"traefik.http.services."@ + name + ".loadbalancer.server.port="@ + port
        + "\"\n"@;
    assert(line_text(l0) && starts_indented(l0)) by {
        assert forall|k: int| 0 <= k < l0.len() - 1 implies l0[k] != '\n' by {}
    }
    assert(line_text(l1) && starts_indented(l1)) by {
        assert forall|k: int| 0 <= k < l1.len() - 1 implies l1[k] != '\n' by {}
    }
    assert(line_safe("          - \"traefik.http.routers."@)) by {
        assert forall|k: int|
            0 <= k < "          - \"traefik.http.routers."@.len()
                implies "          - \"traefik.http.routers."@[k] != '\n' by {}
    }
    assert(line_safe("          - \"traefik.http.services."@)) by {
        assert forall|k: int|
            0 <= k < "          - \"traefik.http.services."@.len()
                implies "          - \"traefik.http.services."@[k] != '\n' by {}
    }
    assert(line_safe(".rule=Host(`"@)) by {
        assert forall|k: int|
            0 <= k < ".rule=Host(`"@.len() implies ".rule=Host(`"@[k] != '\n' by {}
    }
    assert(line_safe(".loadbalancer.server.port="@)) by {
        assert forall|k: int|
            0 <= k < ".loadbalancer.server.port="@.len()
                implies ".loadbalancer.server.port="@[k] != '\n' by {}
    }
    assert(line_text("`)\"\n"@)) by {
        assert forall|k: int| 0 <= k < "`)\"\n"@.len() - 1 implies "`)\"\n"@[k] != '\n' by {}
    }
    assert(line_text(".entrypoints=web,websecure\"\n"@)) by {
        assert forall|k: int|
            0 <= k < ".entrypoints=web,websecure\"\n"@.len() - 1
                implies ".entrypoints=web,websecure\"\n"@[k] != '\n' by {}
    }
    assert(line_text(".tls.certresolver=myresolver\"\n"@)) by {
        assert forall|k: int|
            0 <= k < ".tls.certresolver=myresolver\"\n"@.len() - 1
                implies ".tls.certresolver=myresolver\"\n"@[k] != '\n' by {}
    }
    assert(line_text("\"\n"@)) by {
        assert forall|k: int| 0 <= k < "\"\n"@.len() - 1 implies "\"\n"@[k] != '\n' by {}
    }
    lemma_line_safe_concat("          - \"traefik.http.routers."@, name);
    lemma_line_safe_concat("          - \"traefik.http.routers."@ + name, ".rule=Host(`"@);
    lemma_line_safe_concat("          - \"traefik.http.routers."@ + name + ".rule=Host(`"@, domain);
    lemma_line_prepend("          - \"traefik.http.routers."@ + name + ".rule=Host(`"@ + domain, "`)\"\n"@);
    lemma_line_prepend("          - \"traefik.http.routers."@ + name, ".entrypoints=web,websecure\"\n"@);
    lemma_line_prepend("          - \"traefik.http.routers."@ + name, ".tls.certresolver=myresolver\"\n"@);
    lemma_line_safe_concat("          - \"traefik.http.services."@, name);
    lemma_line_safe_concat(
        "          - \"traefik.http.services."@ + name,
        ".loadbalancer.server.port="@,
    );
    lemma_line_safe_concat(
        "          - \"traefik.http.services."@ + name + ".loadbalancer.server.port="@,
        port,
    );
    lemma_line_prepend(
        "          - \"traefik.http.services."@ + name + ".loadbalancer.server.port="@ + port,
        "\"\n"@,
    );
    assert(starts_indented(l2) && starts_indented(l3) && starts_indented(l4) && starts_indented(
        l5,
    )) by {
        assert(l2[0] == ' ' && l2[1] == ' ' && l2[2] == ' ');
        assert(l3[0] == ' ' && l3[1] == ' ' && l3[2] == ' ');
        assert(l4[0] == ' ' && l4[1] == ' ' && l4[2] == ' ');
        assert(l5[0] == ' ' && l5[1] == ' ' && l5[2] == ' ');
    }
    lemma_line_unit_chunk(l0);
    lemma_line_unit_chunk(l1);
    lemma_line_unit_chunk(l2);
    lemma_line_unit_chunk(l3);
    lemma_line_unit_chunk(l4);
    lemma_line_unit_chunk(l5);
    lemma_chunk_extend(l0, l1);
    lemma_chunk_extend(l0 + l1, l2);
    lemma_chunk_extend(l0 + l1 + l2, l3);
    lemma_chunk_extend(l0 + l1 + l2 + l3, l4);
    lemma_chunk_extend(l0 + l1 + l2 + l3 + l4, l5);
    let rl = routing_labels(name, domain, port);
    assert(rl =~= l0 + l1 + l2 + l3 + l4 + l5);
    assert(starts_indented(rl)) by {
        assert(rl[0] == l0[0] && rl[1] == l0[1] && rl[2] == l0[2]);
    }
}

/// The resource boilerplate is a disciplined chunk.
proof fn lemma_resources_chunk()
    ensures
        block_chunk(resources_lines()),
{
    reveal_strlit(
        "        resources:\n            limits:\n                cpus: \"1.5\"\n                memory: 1G\n            reservations:\n                cpus: \"0.5\"\n                memory: 256M\n",
    );
    let u = resources_lines();
    assert forall|k: int|
        0 <= k && k + 3 < u.len() && #[trigger] u[k] == '\n' implies u[k + 1] == '\n' || (u[k
        + 1] == ' ' && u[k + 2] == ' ' && u[k + 3] == ' ') by {}
    assert forall|k: int|
        0 <= k && u.len() - 3 <= k < u.len() - 1 implies #[trigger] u[k] != '\n' by {}
    assert(u[0] == ' ' && u[1] == ' ' && u[2] == ' ');
    assert(u[u.len() - 1] == '\n');
}

/// The lines of a rendered block's body through the resource limits
/// keep the indentation discipline.
proof fn lemma_body_preamble_structure(name: Seq<char>, replicas: nat)
    requires
        valid_name(name),
    ensures
        nl_indented_within(
            image_line(name) + "    deploy:\n"@ + "        mode: replicated\n"@ + replicas_line(
                replicas,
            ) + resources_lines(),
        ),
        no_late_nl(
            image_line(name) + "    deploy:\n"@ + "        mode: replicated\n"@ + replicas_line(
                replicas,
            ) + resources_lines(),
        ),
        (image_line(name) + "    deploy:\n"@ + "        mode: replicated\n"@ + replicas_line(
            replicas,
        ) + resources_lines()).len() > 0,
        (image_line(name) + "    deploy:\n"@ + "        mode: replicated\n"@ + replicas_line(
            replicas,
        ) + resources_lines()).last() == '\n',
        starts_indented(image_line(name)),
{
    reveal_strlit("    image: registry:5000/");
    reveal_strlit(":latest\n");
    reveal_strlit("    deploy:\n");
    reveal_strlit("        mode: replicated\n");
    reveal_strlit("        replicas: ");
    reveal_strlit("\n");
    lemma_valid_name_line_safe(name);
    let u1 = image_line(name);
    let u2 = "    deploy:\n"@;
    let u3 = "        mode: replicated\n"@;
    let u4 = replicas_line(replicas);
    let u5 = resources_lines();
    assert(line_safe("    image: registry:5000/"@)) by {
        assert forall|k: int|
            0 <= k < "    image: registry:5000/"@.len()
                implies "    image: registry:5000/"@[k] != '\n' by {}
    }
    assert(line_text(":latest\n"@)) by {
        assert forall|k: int|
            0 <= k < ":latest\n"@.len() - 1 implies ":latest\n"@[k] != '\n' by {}
    }
    lemma_line_safe_concat("    image: registry:5000/"@, name);
    lemma_line_prepend("    image: registry:5000/"@ + name, ":latest\n"@);
    assert(starts_indented(u1)) by {
        assert(u1[0] == ' ' && u1[1] == ' ' && u1[2] == ' ');
    }
    lemma_line_unit_chunk(u1);
    assert(line_text(u2) && starts_indented(u2)) by {
        assert forall|k: int| 0 <= k < u2.len() - 1 implies u2[k] != '\n' by {}
    }
    lemma_line_unit_chunk(u2);
    assert(line_text(u3) && starts_indented(u3)) by {
        assert forall|k: int| 0 <= k < u3.len() - 1 implies u3[k] != '\n' by {}
    }
    lemma_line_unit_chunk(u3);
    assert(line_safe("        replicas: "@)) by {
        assert forall|k: int|
            0 <= k < "        replicas: "@.len() implies "        replicas: "@[k] != '\n' by {}
    }
    lemma_dec_line_safe(replicas);
    assert(line_text("\n"@)) by {
        assert("\n"@[0] == '\n');
    }
    lemma_line_safe_concat("        replicas: "@, dec_str(replicas));
    lemma_line_prepend("        replicas: "@ + dec_str(replicas), "\n"@);
    assert(starts_indented(u4)) by {
        assert(u4[0] == ' ' && u4[1] == ' ' && u4[2] == ' ');
    }
    lemma_line_unit_chunk(u4);
    lemma_resources_chunk();
    lemma_line_text_props(u1);
    lemma_chunk_extend(u1, u2);
    lemma_chunk_extend(u1 + u2, u3);
    lemma_chunk_extend(u1 + u2 + u3, u4);
    lemma_chunk_extend(u1 + u2 + u3 + u4, u5);
}

/// The closing networks section of a rendered block.
proof fn lemma_networks_props()
    ensures
        nl_indented_within("    networks:\n        - nephelios_overlay\n\n"@),
        starts_indented("    networks:\n        - nephelios_overlay\n\n"@),
{
    reveal_strlit("    networks:\n        - nephelios_overlay\n\n");
    let u8 = "    networks:\n        - nephelios_overlay\n\n"@;
    assert forall|k: int|
        0 <= k && k + 3 < u8.len() && #[trigger] u8[k] == '\n' implies u8[k + 1] == '\n' || (u8[k
        + 1] == ' ' && u8[k + 2] == ' ' && u8[k + 3] == ' ') by {}
    assert(u8[0] == ' ' && u8[1] == ' ' && u8[2] == ' ');
}

/// The body of a rendered block keeps the indentation discipline and
/// opens at a continuation indentation.
#[verifier::rlimit(100)]
proof fn lemma_block_body_structure(
    name: Seq<char>,
    kind: Seq<char>,
    url: Seq<char>,
    domain: Seq<char>,
    created: Seq<char>,
    port: Seq<char>,
    replicas: nat,
)
    requires
        valid_name(name),
        line_safe(kind),
        line_safe(url),
        line_safe(domain),
        line_safe(created),
        line_safe(port),
    ensures
        nl_indented_within(block_body(name, kind, url, domain, created, port, replicas)),
        starts_indented(block_body(name, kind, url, domain, created, port, replicas)),
{
    let pre = image_line(name) + "    deploy:\n"@ + "        mode: replicated\n"@
        + replicas_line(replicas) + resources_lines();
    let u6 = routing_labels(name, domain, port);
    let u7 = metadata_labels(name, kind, url, domain, created);
    let u8 = "    networks:\n        - nephelios_overlay\n\n"@;
    let body = block_body(name, kind, url, domain, created, port, replicas);
    lemma_body_preamble_structure(name, replicas);
    lemma_routing_labels_chunk(name, domain, port);
    lemma_metadata_labels_chunk(name, kind, url, domain, created);
    lemma_networks_props();
    lemma_chunk_extend(pre, u6);
    lemma_chunk_extend(pre + u6, u7);
    lemma_nl_indented_concat(pre + u6 + u7, u8);
    assert(body == pre + u6 + u7 + u8);
    assert(starts_indented(body)) by {
        assert(body[0] == image_line(name)[0]);
        assert(body[1] == image_line(name)[1]);
        assert(body[2] == image_line(name)[2]);
    }
}

/// The header line of a rendered block: single-line, and standing as a
/// header at the block's front.
proof fn lemma_block_text_header(
    name: Seq<char>,
    kind: Seq<char>,
    url: Seq<char>,
    domain: Seq<char>,
    created: Seq<char>,
    port: Seq<char>,
    replicas: nat,
)
    requires
        valid_name(name),
    ensures
        line_text(header_line(name) + seq!['\n']),
        is_header_at(block_text(name, kind, url, domain, created, port, replicas), name, 0),
{
    let bt = block_text(name, kind, url, domain, created, port, replicas);
    let hd = header_line(name) + seq!['\n'];
    assert(line_text(hd)) by {
        assert forall|k: int| 0 <= k < hd.len() - 1 implies hd[k] != '\n' by {
            if k < 2 {
                assert(hd[k] == ' ');
            } else if k < 2 + name.len() {
                assert(hd[k] == name[k - 2]);
            } else {
                assert(hd[k] == ':');
            }
        }
        assert(hd[hd.len() - 1] == '\n');
    }
    assert(bt == hd + block_body(name, kind, url, domain, created, port, replicas));
    let h = header_line(name);
    assert forall|k: int| 0 <= k < h.len() implies bt[k] == h[k] by {
        assert(bt[k] == hd[k]);
    }
    assert(bt.subrange(0, h.len() as int) =~= h);
    assert(bt[h.len() as int] == '\n') by {
        assert(bt[h.len() as int] == hd[h.len() as int]);
    }
}

/// The whole rendered block keeps the indentation discipline: its first
/// line is the header, and every further line is blank or indented more
/// deeply than a service header.
pub proof fn lemma_block_text_structure(
    name: Seq<char>,
    kind: Seq<char>,
    url: Seq<char>,
    domain: Seq<char>,
    created: Seq<char>,
    port: Seq<char>,
    replicas: nat,
)
    requires
        valid_name(name),
        line_safe(kind),
        line_safe(url),
        line_safe(domain),
        line_safe(created),
        line_safe(port),
    ensures
        nl_indented_within(block_text(name, kind, url, domain, created, port, replicas)),
        is_header_at(block_text(name, kind, url, domain, created, port, replicas), name, 0),
{
    let bt = block_text(name, kind, url, domain, created, port, replicas);
    let hd = header_line(name) + seq!['\n'];
    let body = block_body(name, kind, url, domain, created, port, replicas);
    lemma_block_body_structure(name, kind, url, domain, created, port, replicas);
    lemma_block_text_header(name, kind, url, domain, created, port, replicas);
    lemma_line_text_props(hd);
    lemma_nl_indented_concat(hd, body);
    assert(bt == hd + body);
}

/// A text whose first line is a header and whose further lines are all
/// blank or indented past the service level holds no header for any
/// other key.
pub proof fn lemma_no_foreign_header(t: Seq<char>, name: Seq<char>, b: Seq<char>)
    requires
        valid_name(name),
        valid_name(b),
        b != name,
        nl_indented_within(t),
        is_header_at(t, name, 0),
    ensures
        forall|q: int| !is_header_at(t, b, q),
{
    lemma_headers_only_at_front(t, b);
    assert forall|q: int| !is_header_at(t, b, q) by {
        if q == 0 && is_header_at(t, b, 0) {
            lemma_header_same_pos(t, name, b, 0);
        }
    }
}

/// Appending a text that holds no header for `b` neither creates nor
/// destroys a block for `b`.
pub proof fn lemma_append_isolates(s: Seq<char>, tail: Seq<char>, b: Seq<char>)
    requires
        valid_name(b),
        forall|q: int| !is_header_at(tail, b, q),
    ensures
        has_block(with_final_newline(s) + tail, b) == has_block(s, b),
{
    let w = with_final_newline(s);
    let t = w + tail;
    let hb = header_line(b);
    if has_block(s, b) {
        let h = choose|h: int| is_header_at(s, b, h);
        law_add_preserves_existing_blocks(s, tail, b, h);
    }
    if has_block(t, b) {
        let p = choose|p: int| is_header_at(t, b, p);
        assert(w.len() > 0 ==> w[w.len() - 1] == '\n');
        if p + hb.len() <= s.len() {
            assert(is_header_at(s, b, p)) by {
                assert(t.subrange(p, p + hb.len() as int) =~= s.subrange(p, p + hb.len() as int));
                if p > 0 {
                    assert(t[p - 1] == s[p - 1]);
                }
                if p + hb.len() < s.len() {
                    assert(t[p + hb.len()] == s[p + hb.len()]);
                }
            }
        } else if p < w.len() {
            // The match would cover the line break that closes the
            // document's last line.
            assert(w.len() - 1 < p + hb.len());
            assert(p <= w.len() - 1);
            assert(t[w.len() - 1] == w[w.len() - 1]);
            assert(t.subrange(p, p + hb.len() as int)[w.len() - 1 - p] == hb[w.len() - 1 - p]);
            assert(hb[w.len() - 1 - p] != '\n') by {
                let k = w.len() - 1 - p;
                if k < 2 {
                    assert(hb[k] == ' ');
                } else if k < 2 + b.len() {
                    assert(hb[k] == b[k - 2]);
                    assert(name_char(b[k - 2]));
                } else {
                    assert(hb[k] == ':');
                }
            }
        } else {
            let q = p - w.len();
            assert(is_header_at(tail, b, q)) by {
                assert(t.subrange(p, p + hb.len() as int) =~= tail.subrange(
                    q,
                    q + hb.len() as int,
                ));
                if q > 0 {
                    assert(t[p - 1] == tail[q - 1]);
                }
                if q + hb.len() < tail.len() {
                    assert(t[p + hb.len()] == tail[q + hb.len()]);
                }
            }
        }
    }
}

/// In a text whose lines past the first are all blank or indented past
/// the service level, no header of any key starts after the front.
pub proof fn lemma_headers_only_at_front(t: Seq<char>, b: Seq<char>)
    requires
        valid_name(b),
        nl_indented_within(t),
    ensures
        forall|q: int| q != 0 ==> !is_header_at(t, b, q),
{
    let hb = header_line(b);
    assert forall|q: int| q != 0 implies !is_header_at(t, b, q) by {
        if is_header_at(t, b, q) {
            assert(t[q - 1] == '\n');
            assert(q + hb.len() <= t.len() && hb.len() == b.len() + 3 && b.len() >= 1);
            assert(t[q] == '\n' || (t[q] == ' ' && t[q + 1] == ' ' && t[q + 2] == ' '));
            assert(t.subrange(q, q + hb.len() as int)[0] == hb[0]);
            assert(t.subrange(q, q + hb.len() as int)[1] == hb[1]);
            assert(t.subrange(q, q + hb.len() as int)[2] == hb[2]);
            assert(hb[0] == ' ' && hb[1] == ' ');
            assert(hb[2] == b[0]);
            assert(name_char(b[0]));
        }
    }
}

/// Appending a text whose only header for `name` stands at its front, to
/// a document without a block for `name`, yields a document whose only
/// header for `name` stands where the text was appended.
pub proof fn lemma_append_single_header(s: Seq<char>, tail: Seq<char>, name: Seq<char>)
    requires
        valid_name(name),
        !has_block(s, name),
        is_header_at(tail, name, 0),
        forall|q: int| q != 0 ==> !is_header_at(tail, name, q),
    ensures
        is_header_at(with_final_newline(s) + tail, name, with_final_newline(s).len() as int),
        forall|p: int|
            is_header_at(with_final_newline(s) + tail, name, p) ==> p == with_final_newline(
                s,
            ).len(),
{
    let w = with_final_newline(s);
    let t = w + tail;
    let hb = header_line(name);
    assert(w.len() > 0 ==> w[w.len() - 1] == '\n');
    assert(is_header_at(t, name, w.len() as int)) by {
        assert(t.subrange(w.len() as int, w.len() + hb.len() as int) =~= tail.subrange(
            0,
            hb.len() as int,
        ));
        if hb.len() < tail.len() {
            assert(t[w.len() + hb.len() as int] == tail[hb.len() as int]);
        }
    }
    assert forall|p: int| is_header_at(t, name, p) implies p == w.len() by {
        if p + hb.len() <= s.len() {
            assert(is_header_at(s, name, p)) by {
                assert(t.subrange(p, p + hb.len() as int) =~= s.subrange(p, p + hb.len() as int));
                if p > 0 {
                    assert(t[p - 1] == s[p - 1]);
                }
                if p + hb.len() < s.len() {
                    assert(t[p + hb.len()] == s[p + hb.len()]);
                }
            }
        } else if p < w.len() {
            assert(w.len() - 1 < p + hb.len());
            assert(p <= w.len() - 1);
            assert(t[w.len() - 1] == w[w.len() - 1]);
            assert(t.subrange(p, p + hb.len() as int)[w.len() - 1 - p] == hb[w.len() - 1 - p]);
            assert(hb[w.len() - 1 - p] != '\n') by {
                let k = w.len() - 1 - p;
                if k < 2 {
                    assert(hb[k] == ' ');
                } else if k < 2 + name.len() {
                    assert(hb[k] == name[k - 2]);
                    assert(name_char(name[k - 2]));
                } else {
                    assert(hb[k] == ':');
                }
            }
        } else {
            let q = p - w.len();
            assert(is_header_at(tail, name, q)) by {
                assert(t.subrange(p, p + hb.len() as int) =~= tail.subrange(
                    q,
                    q + hb.len() as int,
                ));
                if q > 0 {
                    assert(t[p - 1] == tail[q - 1]);
                }
                if q + hb.len() < tail.len() {
                    assert(t[p + hb.len()] == tail[q + hb.len()]);
                }
            }
        }
    }
}

/// An added block's key appears exactly once afterwards: the document
/// keeps its unique-key invariant.
pub proof fn law_add_unique_key(
    s: Seq<char>,
    name: Seq<char>,
    kind: Seq<char>,
    url: Seq<char>,
    domain: Seq<char>,
    created: Seq<char>,
    port: Seq<char>,
    replicas: nat,
)
    requires
        valid_name(name),
        line_safe(kind),
        line_safe(url),
        line_safe(domain),
        line_safe(created),
        line_safe(port),
        !has_block(s, name),
    ensures
        forall|i: int, j: int|
            is_header_at(
                with_final_newline(s) + block_text(
                    name,
                    kind,
                    url,
                    domain,
                    created,
                    port,
                    replicas,
                ),
                name,
                i,
            ) && is_header_at(
                with_final_newline(s) + block_text(
                    name,
                    kind,
                    url,
                    domain,
                    created,
                    port,
                    replicas,
                ),
                name,
                j,
            ) ==> i == j,
{
    let bt = block_text(name, kind, url, domain, created, port, replicas);
    lemma_block_text_structure(name, kind, url, domain, created, port, replicas);
    lemma_headers_only_at_front(bt, name);
    lemma_append_single_header(s, bt, name);
}

/// Adding a block for one name neither creates nor destroys a block for
/// any other name: the appended text declares exactly its own key. With
/// the store's serialization, deployments of two distinct applications
/// both land, each exactly once.
pub proof fn law_add_isolates_names(
    s: Seq<char>,
    name: Seq<char>,
    kind: Seq<char>,
    url: Seq<char>,
    domain: Seq<char>,
    created: Seq<char>,
    port: Seq<char>,
    replicas: nat,
    b: Seq<char>,
)
    requires
        valid_name(name),
        line_safe(kind),
        line_safe(url),
        line_safe(domain),
        line_safe(created),
        line_safe(port),
        valid_name(b),
        b != name,
    ensures
        has_block(
            with_final_newline(s) + block_text(name, kind, url, domain, created, port, replicas),
            b,
        ) == has_block(s, b),
{
    let bt = block_text(name, kind, url, domain, created, port, replicas);
    lemma_block_text_structure(name, kind, url, domain, created, port, replicas);
    lemma_no_foreign_header(bt, name, b);
    lemma_append_isolates(s, bt, b);
}

/// Round trip of a rendered block: every value derived from the
/// application descriptor can be read back out of the rendered text. The
/// block carries, as exact lines, one metadata label per descriptor field
/// and the requested replica count.
pub proof fn law_block_carries_labels(
    name: Seq<char>,
    kind: Seq<char>,
    url: Seq<char>,
    domain: Seq<char>,
    created: Seq<char>,
    port: Seq<char>,
    replicas: nat,
)
    ensures
        seq_contains(
            block_text(name, kind, url, domain, created, port, replicas),
            label_line("com.myapp.name"@, name),
        ),
        seq_contains(
            block_text(name, kind, url, domain, created, port, replicas),
            label_line("com.myapp.type"@, kind),
        ),
        seq_contains(
            block_text(name, kind, url, domain, created, port, replicas),
            label_line("com.myapp.github_url"@, url),
        ),
        seq_contains(
            block_text(name, kind, url, domain, created, port, replicas),
            label_line("com.myapp.domain"@, domain),
        ),
        seq_contains(
            block_text(name, kind, url, domain, created, port, replicas),
            label_line("com.myapp.created_at"@, created),
        ),
        seq_contains(
            block_text(name, kind, url, domain, created, port, replicas),
            replicas_line(replicas),
        ),
{
    let bt = block_text(name, kind, url, domain, created, port, replicas);
    let hd = header_line(name) + seq!['\n'];
    let l1 = label_line("com.myapp.name"@, name);
    let l2 = label_line("com.myapp.image"@, name + ":latest"@);
    let l3 = label_line("com.myapp.type"@, kind);
    let l4 = label_line("com.myapp.github_url"@, url);
    let l5 = label_line("com.myapp.domain"@, domain);
    let l6 = label_line("com.myapp.created_at"@, created);
    let ml = metadata_labels(name, kind, url, domain, created);
    let pre = hd + image_line(name) + "    deploy:\n"@ + "        mode: replicated\n"@
        + replicas_line(replicas) + resources_lines() + routing_labels(name, domain, port);
    let tail = "    networks:\n        - nephelios_overlay\n\n"@;
    assert(bt == pre + ml + tail);
    // Each metadata label occurs inside the label section.
    crate::text::lemma_contains_self(l1);
    crate::text::lemma_contains_extend_right(l1, l2, l1);
    crate::text::lemma_contains_extend_right(l1 + l2, l3, l1);
    crate::text::lemma_contains_extend_right(l1 + l2 + l3, l4, l1);
    crate::text::lemma_contains_extend_right(l1 + l2 + l3 + l4, l5, l1);
    crate::text::lemma_contains_extend_right(l1 + l2 + l3 + l4 + l5, l6, l1);
    crate::text::lemma_contains_self(l3);
    crate::text::lemma_contains_extend_left(l1 + l2, l3, l3);
    crate::text::lemma_contains_extend_right(l1 + l2 + l3, l4, l3);
    crate::text::lemma_contains_extend_right(l1 + l2 + l3 + l4, l5, l3);
    crate::text::lemma_contains_extend_right(l1 + l2 + l3 + l4 + l5, l6, l3);
    crate::text::lemma_contains_self(l4);
    crate::text::lemma_contains_extend_left(l1 + l2 + l3, l4, l4);
    crate::text::lemma_contains_extend_right(l1 + l2 + l3 + l4, l5, l4);
    crate::text::lemma_contains_extend_right(l1 + l2 + l3 + l4 + l5, l6, l4);
    crate::text::lemma_contains_self(l5);
    crate::text::lemma_contains_extend_left(l1 + l2 + l3 + l4, l5, l5);
    crate::text::lemma_contains_extend_right(l1 + l2 + l3 + l4 + l5, l6, l5);
    crate::text::lemma_contains_self(l6);
    crate::text::lemma_contains_extend_left(l1 + l2 + l3 + l4 + l5, l6, l6);
    // Lift each containment through the surrounding block text.
    assert forall|x: Seq<char>| crate::text::seq_contains(ml, x) implies crate::text::seq_contains(
        bt,
        x,
    ) by {
        crate::text::lemma_contains_extend_left(pre, ml, x);
        crate::text::lemma_contains_extend_right(pre + ml, tail, x);
    }
    assert(crate::text::seq_contains(ml, l1));
    assert(crate::text::seq_contains(ml, l3));
    assert(crate::text::seq_contains(ml, l4));
    assert(crate::text::seq_contains(ml, l5));
    assert(crate::text::seq_contains(ml, l6));
    // The replicas line sits in the preamble.
    let rpre = hd + image_line(name) + "    deploy:\n"@ + "        mode: replicated\n"@;
    crate::text::lemma_contains_self(replicas_line(replicas));
    crate::text::lemma_contains_extend_left(rpre, replicas_line(replicas), replicas_line(replicas));
    crate::text::lemma_contains_extend_right(
        rpre + replicas_line(replicas),
        resources_lines(),
        replicas_line(replicas),
    );
    crate::text::lemma_contains_extend_right(
        rpre + replicas_line(replicas) + resources_lines(),
        routing_labels(name, domain, port),
        replicas_line(replicas),
    );
    assert(pre == rpre + replicas_line(replicas) + resources_lines() + routing_labels(
        name,
        domain,
        port,
    ));
    crate::text::lemma_contains_extend_right(pre, ml, replicas_line(replicas));
    crate::text::lemma_contains_extend_right(pre + ml, tail, replicas_line(replicas));
}

/// Appends one metadata label line.
fn append_label(t: &mut String, key: &str, value: &str)
    ensures
        final(t)@ == old(t)@ + label_line(key@, value@),
{
    t.append("          - \"");
    t.append(key);
    t.append("=");
    t.append(value);
    t.append("\"\n");
    proof {
        assert(t@ =~= old(t)@ + label_line(key@, value@));
    }
}

/// Renders the header line and the top of the block body, through the
/// resource limits.
fn render_preamble(meta: &AppMetadata, replicas: u32) -> (t: String)
    ensures
        t@ == header_line(meta.app_name@) + seq!['\n'] + image_line(meta.app_name@)
            + "    deploy:\n"@ + "        mode: replicated\n"@ + replicas_line(replicas as nat)
            + resources_lines(),
{
    let count = crate::text::u32_to_string(replicas);
    let mut t = String::new();
    t.append("  ");
    t.append(meta.app_name.as_str());
    t.append(":\n");
    let ghost c0 = header_line(meta.app_name@) + seq!['\n'];
    proof {
        reveal_strlit("  ");
        reveal_strlit(":\n");
        assert(t@ =~= c0);
    }
    t.append("    image: registry:5000/");
    t.append(meta.app_name.as_str());
    t.append(":latest\n");
    let ghost c1 = c0 + image_line(meta.app_name@);
    proof {
        assert(t@ =~= c1);
    }
    t.append("    deploy:\n");
    t.append("        mode: replicated\n");
    t.append("        replicas: ");
    t.append(count.as_str());
    t.append("\n");
    let ghost c2 = c1 + "    deploy:\n"@ + "        mode: replicated\n"@ + replicas_line(
        replicas as nat,
    );
    proof {
        assert(t@ =~= c2);
    }
    t.append(
        "        resources:\n            limits:\n                cpus: \"1.5\"\n                memory: 1G\n            reservations:\n                cpus: \"0.5\"\n                memory: 256M\n",
    );
    proof {
        assert(t@ =~= c2 + resources_lines());
    }
    t
}

/// Appends the routing labels.
fn append_routing(t: &mut String, meta: &AppMetadata, port: &str)
    ensures
        final(t)@ == old(t)@ + routing_labels(meta.app_name@, meta.domain@, port@),
{
    t.append("        labels:\n");
    t.append("          - \"traefik.enable=true\"\n");
    t.append("          - \"traefik.http.routers.");
    t.append(meta.app_name.as_str());
    t.append(".rule=Host(`");
    t.append(meta.domain.as_str());
    t.append("`)\"\n");
    t.append("          - \"traefik.http.routers.");
    t.append(meta.app_name.as_str());
    t.append(".entrypoints=web,websecure\"\n");
    t.append("          - \"traefik.http.routers.");
    t.append(meta.app_name.as_str());
    t.append(".tls.certresolver=myresolver\"\n");
    t.append("          - \"traefik.http.services.");
    t.append(meta.app_name.as_str());
    t.append(".loadbalancer.server.port=");
    t.append(port);
    t.append("\"\n");
    proof {
        assert(t@ =~= old(t)@ + routing_labels(meta.app_name@, meta.domain@, port@));
    }
}

/// Appends the metadata labels.
fn append_metadata_labels(t: &mut String, meta: &AppMetadata)
    ensures
        final(t)@ == old(t)@ + metadata_labels(
            meta.app_name@,
            meta.app_type@,
            meta.github_url@,
            meta.domain@,
            meta.created_at@,
        ),
{
    let image_value = meta.app_name.clone().concat(":latest");
    append_label(t, "com.myapp.name", meta.app_name.as_str());
    append_label(t, "com.myapp.image", image_value.as_str());
    append_label(t, "com.myapp.type", meta.app_type.as_str());
    append_label(t, "com.myapp.github_url", meta.github_url.as_str());
    append_label(t, "com.myapp.domain", meta.domain.as_str());
    append_label(t, "com.myapp.created_at", meta.created_at.as_str());
    proof {
        assert(t@ =~= old(t)@ + metadata_labels(
            meta.app_name@,
            meta.app_type@,
            meta.github_url@,
            meta.domain@,
            meta.created_at@,
        ));
    }
}

/// Renders the service block for one application.
fn render_block(meta: &AppMetadata, port: &str, replicas: u32) -> (r: String)
    ensures
        r@ == block_text(
            meta.app_name@,
            meta.app_type@,
            meta.github_url@,
            meta.domain@,
            meta.created_at@,
            port@,
            replicas as nat,
        ),
{
    let mut t = render_preamble(meta, replicas);
    append_routing(&mut t, meta, port);
    append_metadata_labels(&mut t, meta);
    t.append("    networks:\n        - nephelios_overlay\n\n");
    proof {
        assert(t@ =~= block_text(
            meta.app_name@,
            meta.app_type@,
            meta.github_url@,
            meta.domain@,
            meta.created_at@,
            port@,
            replicas as nat,
        ));
    }
    t
}

/// The desired-state document: the platform's single source of truth.
pub struct ManifestDocument {
    text: String,
}

impl View for ManifestDocument {
    type V = Seq<char>;

    closed spec fn view(&self) -> Seq<char> {
        self.text@
    }
}

impl ManifestDocument {
    /// An empty document.
    pub fn new() -> (r: Self)
        ensures
            r@ == Seq::<char>::empty(),
    {
        ManifestDocument { text: String::new() }
    }

    /// Wraps a document read from storage.
    pub fn from_text(text: String) -> (r: Self)
        ensures
            r@ == text@,
    {
        ManifestDocument { text }
    }

    /// The document's full text, to be written back to storage.
    pub fn text(&self) -> (r: &String)
        ensures
            r@ == self@,
    {
        &self.text
    }

    /// Appends a freshly rendered service block for `meta`, preserving all
    /// existing content character for character (a separating line break is
    /// inserted if the document does not already end in one). Fails, and
    /// leaves the document untouched, when a block with the same key is
    /// already present.
    pub fn add(&mut self, meta: &AppMetadata, port: &str, replicas: u32) -> (r: Result<
        (),
        ManifestError,
    >)
        requires
            valid_name(meta.app_name@),
            line_safe(meta.app_type@),
            line_safe(meta.github_url@),
            line_safe(meta.domain@),
            line_safe(meta.created_at@),
            line_safe(port@),
        ensures
            match r {
                Ok(_) => {
                    &&& !has_block(old(self)@, meta.app_name@)
                    &&& final(self)@ == with_final_newline(old(self)@) + block_text(
                        meta.app_name@,
                        meta.app_type@,
                        meta.github_url@,
                        meta.domain@,
                        meta.created_at@,
                        port@,
                        replicas as nat,
                    )
                    &&& is_header_at(
                        final(self)@,
                        meta.app_name@,
                        with_final_newline(old(self)@).len() as int,
                    )
                    &&& has_block(final(self)@, meta.app_name@)
                },
                Err(e) => {
                    &&& e == ManifestError::AlreadyExists
                    &&& has_block(old(self)@, meta.app_name@)
                    &&& final(self)@ == old(self)@
                },
            },
    {
        let ghost s = self.text@;
        if self.exists_app(meta.app_name.as_str()) {
            return Err(ManifestError::AlreadyExists);
        }
        let dlen = self.text.as_str().unicode_len();
        if dlen > 0 && self.text.as_str().get_char(dlen - 1) != '\n' {
            self.text.append("\n");
            proof {
                reveal_strlit("\n");
                assert(self.text@ =~= with_final_newline(s));
            }
        }
        proof {
            assert(self.text@ =~= with_final_newline(s));
        }
        let ghost w = self.text@;
        let block = render_block(meta, port, replicas);
        self.text.append(block.as_str());
        proof {
            let name = meta.app_name@;
            let h = header_line(name);
            let t = self.text@;
            let p = w.len() as int;
            assert(is_header_at(t, name, p)) by {
                assert(is_line_start(t, p)) by {
                    if p != 0 {
                        assert(w[p - 1] == '\n');
                        assert(t[p - 1] == w[p - 1]);
                    }
                }
                assert(t.subrange(p, p + h.len() as int) =~= h) by {
                    assert forall|k: int| 0 <= k < h.len() implies t[p + k] == h[k] by {
                        assert(block@[k] == h[k]);
                    }
                }
                assert(t[p + h.len()] == '\n') by {
                    assert(block@[h.len() as int] == '\n');
                }
            }
        }
        Ok(())
    }

    /// Deletes the full textual extent of the block keyed by `name`: its
    /// header line and every following more-indented line. Everything
    /// before and after the extent is preserved character for character.
    pub fn remove(&mut self, name: &str) -> (r: Result<(), ManifestError>)
        requires
            valid_name(name@),
        ensures
            match r {
                Ok(_) => {
                    let s = old(self)@;
                    let start = first_header(s, name@);
                    let end = extent_end(s, start);
                    &&& has_block(s, name@)
                    &&& is_header_at(s, name@, start)
                    &&& (forall|j: int| 0 <= j < start ==> !is_header_at(s, name@, j))
                    &&& is_extent_end(s, start, end)
                    &&& final(self)@ == s.take(start) + s.skip(end)
                },
                Err(e) => {
                    &&& e == ManifestError::NotFound
                    &&& !has_block(old(self)@, name@)
                    &&& final(self)@ == old(self)@
                },
            },
    {
        let ghost s = self.text@;
        let found = find_header(self.text.as_str(), name);
        match found {
            None => Err(ManifestError::NotFound),
            Some(start) => {
                let dlen = self.text.as_str().unicode_len();
                let nlen = name.unicode_len();
                proof {
                    lemma_header_no_newline(s, name@, start as int);
                }
                let after = if start + nlen + 3 == dlen {
                    dlen
                } else {
                    start + nlen + 3 + 1
                };
                proof {
                    assert forall|k: int| start < k < after implies !is_line_start(s, k) by {
                        assert(s[k - 1] != '\n');
                    }
                }
                let end = extent_from(self.text.as_str(), start, after);
                let head = self.text.as_str().substring_char(0, start);
                let tail = self.text.as_str().substring_char(end, dlen);
                let new_text = head.to_owned().concat(tail);
                proof {
                    let fh = first_header(s, name@);
                    assert(is_header_at(s, name@, fh) && forall|j: int|
                        0 <= j < fh ==> !is_header_at(s, name@, j)) by {
                        assert(is_header_at(s, name@, start as int) && forall|j: int|
                            0 <= j < start ==> !is_header_at(s, name@, j));
                    }
                    lemma_first_header_unique(s, name@, start as int, fh);
                    let ee = extent_end(s, fh);
                    assert(is_extent_end(s, fh, ee)) by {
                        assert(is_extent_end(s, fh, end as int));
                    }
                    lemma_extent_end_unique(s, fh, end as int, ee);
                    assert(new_text@ =~= s.take(fh) + s.skip(ee));
                }
                self.text = new_text;
                Ok(())
            },
        }
    }

    /// Replaces the digits of the first `replicas: ` field inside the block
    /// keyed by `name` with the new count, leaving every other character of
    /// the document in place. Fails, and leaves the document untouched,
    /// when the block or its `replicas` field is absent.
    pub fn set_replicas(&mut self, name: &str, replicas: u32) -> (r: Result<(), ManifestError>)
        requires
            valid_name(name@),
        ensures
            match r {
                Ok(_) => {
                    let s = old(self)@;
                    let start = first_header(s, name@);
                    let end = extent_end(s, start);
                    let p = replicas_pos(s, start, end);
                    let d0 = p + "replicas: "@.len();
                    let q = digit_run_end(s, d0);
                    &&& has_block(s, name@)
                    &&& is_header_at(s, name@, start)
                    &&& (forall|j: int| 0 <= j < start ==> !is_header_at(s, name@, j))
                    &&& is_extent_end(s, start, end)
                    &&& is_first_replicas_at(s, start, end, p)
                    &&& is_digit_run_end(s, d0, q)
                    &&& final(self)@ == s.take(d0) + dec_str(replicas as nat) + s.skip(q)
                },
                Err(e) => {
                    let s = old(self)@;
                    &&& e == ManifestError::NotFound
                    &&& final(self)@ == s
                    &&& (has_block(s, name@) ==> !has_replicas_in(
                        s,
                        first_header(s, name@),
                        extent_end(s, first_header(s, name@)),
                    ))
                },
            },
    {
        let ghost s = self.text@;
        let found = find_header(self.text.as_str(), name);
        let start = match found {
            None => {
                return Err(ManifestError::NotFound);
            },
            Some(start) => start,
        };
        let dlen = self.text.as_str().unicode_len();
        let nlen = name.unicode_len();
        proof {
            lemma_header_no_newline(s, name@, start as int);
        }
        let after = if start + nlen + 3 == dlen {
            dlen
        } else {
            start + nlen + 3 + 1
        };
        proof {
            assert forall|k: int| start < k < after implies !is_line_start(s, k) by {
                assert(s[k - 1] != '\n');
            }
        }
        let end = extent_from(self.text.as_str(), start, after);
        proof {
            let fh = first_header(s, name@);
            assert(is_header_at(s, name@, fh) && forall|j: int|
                0 <= j < fh ==> !is_header_at(s, name@, j)) by {
                assert(is_header_at(s, name@, start as int) && forall|j: int|
                    0 <= j < start ==> !is_header_at(s, name@, j));
            }
            lemma_first_header_unique(s, name@, start as int, fh);
            let ee = extent_end(s, fh);
            assert(is_extent_end(s, fh, ee)) by {
                assert(is_extent_end(s, fh, end as int));
            }
            lemma_extent_end_unique(s, fh, end as int, ee);
        }
        let pattern = "replicas: ";
        proof {
            reveal_strlit("replicas: ");
        }
        let plen = pattern.unicode_len();
        let mut p = start;
        let mut found_pos: Option<usize> = None;
        loop
            invariant_except_break
                found_pos is None,
            invariant
                start <= p,
                dlen == s.len(),
                s == self.text@,
                pattern@ == "replicas: "@,
                plen == pattern@.len(),
                plen == 10,
                end <= dlen,
                forall|q: int|
                    start <= q < p && q + pattern@.len() <= end ==> !occurs_at(s, pattern@, q),
            ensures
                match found_pos {
                    Some(pp) => is_first_replicas_at(s, start as int, end as int, pp as int),
                    None => !has_replicas_in(s, start as int, end as int),
                },
            decreases end + 1 - p,
        {
            if p > end || end - p < plen {
                assert forall|q: int|
                    start <= q && q + "replicas: "@.len() <= end implies !occurs_at(
                    s,
                    "replicas: "@,
                    q,
                ) by {
                    assert(q < p);
                }
                assert(!has_replicas_in(s, start as int, end as int));
                break;
            }
            if crate::text::match_at(self.text.as_str(), pattern, p) {
                found_pos = Some(p);
                assert(occurs_at(s, "replicas: "@, p as int));
                assert(p + "replicas: "@.len() <= end);
                assert(is_first_replicas_at(s, start as int, end as int, p as int));
                break;
            }
            p += 1;
        }
        let pos = match found_pos {
            None => {
                return Err(ManifestError::NotFound);
            },
            Some(pp) => pp,
        };
        let d0 = pos + plen;
        let mut q = d0;
        loop
            invariant
                d0 <= q <= dlen,
                dlen == s.len(),
                s == self.text@,
                forall|k: int| d0 <= k < q ==> is_digit(s[k]),
            ensures
                is_digit_run_end(s, d0 as int, q as int),
            decreases dlen - q,
        {
            if q == dlen {
                break;
            }
            let c = self.text.as_str().get_char(q);
            if !('0' <= c && c <= '9') {
                break;
            }
            q += 1;
        }
        let head = self.text.as_str().substring_char(0, d0);
        let digits = crate::text::u32_to_string(replicas);
        let tail = self.text.as_str().substring_char(q, dlen);
        let new_text = head.to_owned().concat(digits.as_str()).concat(tail);
        proof {
            let rp = replicas_pos(s, start as int, end as int);
            assert(is_first_replicas_at(s, start as int, end as int, rp)) by {
                assert(is_first_replicas_at(s, start as int, end as int, pos as int));
            }
            lemma_first_replicas_unique(s, start as int, end as int, pos as int, rp);
            let dq = digit_run_end(s, d0 as int);
            assert(is_digit_run_end(s, d0 as int, dq)) by {
                assert(is_digit_run_end(s, d0 as int, q as int));
            }
            lemma_digit_run_end_unique(s, d0 as int, q as int, dq);
            assert(new_text@ =~= s.take(d0 as int) + dec_str(replicas as nat) + s.skip(dq));
        }
        self.text = new_text;
        Ok(())
    }

    /// Reads back the value of one metadata label inside the block keyed
    /// by `name`: the text between the first `- "key=` inside the
    /// block's extent and the closing quote. This is the reparse side of
    /// the round trip: what `add` rendered can be recovered.
    pub fn label_value(&self, name: &str, key: &str) -> (r: Option<String>)
        requires
            valid_name(name@),
        ensures
            match r {
                Some(v) => {
                    let s = self@;
                    let start = first_header(s, name@);
                    let end = extent_end(s, start);
                    let p = label_pos(s, start, end, key@);
                    let v0 = p + label_prefix(key@).len();
                    let q = value_end(s, v0);
                    &&& has_block(s, name@)
                    &&& is_header_at(s, name@, start)
                    &&& (forall|j: int| 0 <= j < start ==> !is_header_at(s, name@, j))
                    &&& is_extent_end(s, start, end)
                    &&& is_first_label_at(s, start, end, key@, p)
                    &&& is_value_end(s, v0, q)
                    &&& v@ == s.subrange(v0, q)
                },
                None => {
                    let s = self@;
                    !has_block(s, name@) || !has_label_in(
                        s,
                        first_header(s, name@),
                        extent_end(s, first_header(s, name@)),
                        key@,
                    )
                },
            },
    {
        let ghost s = self.text@;
        let found = find_header(self.text.as_str(), name);
        let start = match found {
            None => {
                return None;
            },
            Some(start) => start,
        };
        let dlen = self.text.as_str().unicode_len();
        let nlen = name.unicode_len();
        proof {
            lemma_header_no_newline(s, name@, start as int);
        }
        let after = if start + nlen + 3 == dlen {
            dlen
        } else {
            start + nlen + 3 + 1
        };
        proof {
            assert forall|k: int| start < k < after implies !is_line_start(s, k) by {
                assert(s[k - 1] != '\n');
            }
        }
        let end = extent_from(self.text.as_str(), start, after);
        proof {
            let fh = first_header(s, name@);
            assert(is_header_at(s, name@, fh) && forall|j: int|
                0 <= j < fh ==> !is_header_at(s, name@, j)) by {
                assert(is_header_at(s, name@, start as int) && forall|j: int|
                    0 <= j < start ==> !is_header_at(s, name@, j));
            }
            lemma_first_header_unique(s, name@, start as int, fh);
            let ee = extent_end(s, fh);
            assert(is_extent_end(s, fh, ee)) by {
                assert(is_extent_end(s, fh, end as int));
            }
            lemma_extent_end_unique(s, fh, end as int, ee);
        }
        let pattern = String::from_str("          - \"").concat(key).concat("=");
        proof {
            reveal_strlit("          - \"");
            reveal_strlit("=");
        }
        let plen = pattern.unicode_len();
        let mut p = start;
        let mut found_pos: Option<usize> = None;
        loop
            invariant_except_break
                found_pos is None,
            invariant
                start <= p,
                dlen == s.len(),
                s == self.text@,
                pattern@ == label_prefix(key@),
                plen == pattern@.len(),
                plen >= 1,
                end <= dlen,
                forall|q: int|
                    start <= q < p && q + label_prefix(key@).len() <= end ==> !occurs_at(
                        s,
                        label_prefix(key@),
                        q,
                    ),
            ensures
                match found_pos {
                    Some(pp) => is_first_label_at(s, start as int, end as int, key@, pp as int),
                    None => !has_label_in(s, start as int, end as int, key@),
                },
            decreases end + 1 - p,
        {
            if p > end || end - p < plen {
                assert forall|q: int|
                    start <= q && q + label_prefix(key@).len() <= end implies !occurs_at(
                    s,
                    label_prefix(key@),
                    q,
                ) by {
                    assert(q < p);
                }
                assert(!has_label_in(s, start as int, end as int, key@));
                break;
            }
            if crate::text::match_at(self.text.as_str(), pattern.as_str(), p) {
                found_pos = Some(p);
                assert(is_first_label_at(s, start as int, end as int, key@, p as int));
                break;
            }
            p += 1;
        }
        let pos = match found_pos {
            None => {
                return None;
            },
            Some(pp) => pp,
        };
        let v0 = pos + plen;
        let mut q = v0;
        loop
            invariant
                v0 <= q <= dlen,
                dlen == s.len(),
                s == self.text@,
                forall|k: int| v0 <= k < q ==> s[k] != '"',
            ensures
                is_value_end(s, v0 as int, q as int),
            decreases dlen - q,
        {
            if q == dlen {
                break;
            }
            if self.text.as_str().get_char(q) == '"' {
                break;
            }
            q += 1;
        }
        let value = self.text.as_str().substring_char(v0, q).to_owned();
        proof {
            let lp = label_pos(s, start as int, end as int, key@);
            assert(is_first_label_at(s, start as int, end as int, key@, lp)) by {
                assert(is_first_label_at(s, start as int, end as int, key@, pos as int));
            }
            lemma_first_label_unique(s, start as int, end as int, key@, pos as int, lp);
            let ve = value_end(s, v0 as int);
            assert(is_value_end(s, v0 as int, ve)) by {
                assert(is_value_end(s, v0 as int, q as int));
            }
            lemma_value_end_unique(s, v0 as int, q as int, ve);
        }
        Some(value)
    }

    /// Exact-key existence test for the block keyed by `name`.
    pub fn exists_app(&self, name: &str) -> (b: bool)
        requires
            valid_name(name@),
        ensures
            b == has_block(self@, name@),
    {
        match find_header(self.text.as_str(), name) {
            Some(_) => true,
            None => false,
        }
    }
}

} // verus!
