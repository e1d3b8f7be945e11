//! The order in which the source editor lists sources.

use std::cmp::Ordering;
use vstd::prelude::*;
use vstd::string::*;

verus! {

/// The kind of a source, as far as the listing is concerned.
#[derive(Copy, Clone, Debug, PartialEq, Eq)]
pub enum ListedKind {
    Wav,
    Realtime,
}

/// The sign of the comparison of two texts character by character, a proper prefix first:
/// negative, zero or positive.
pub open spec fn lex_sign(a: Seq<char>, b: Seq<char>) -> int
    decreases a.len(),
{
    if a.len() == 0 {
        if b.len() == 0 { 0 } else { -1 }
    } else if b.len() == 0 {
        1
    } else if a[0] < b[0] {
        -1
    } else if a[0] > b[0] {
        1
    } else {
        lex_sign(a.drop_first(), b.drop_first())
    }
}

/// Texts compared character by character, a proper prefix first.
pub open spec fn lexicographic(a: Seq<char>, b: Seq<char>) -> Ordering {
    if lex_sign(a, b) < 0 {
        Ordering::Less
    } else if lex_sign(a, b) == 0 {
        Ordering::Equal
    } else {
        Ordering::Greater
    }
}

/// The order of two sources in the listing: a WAV source before a realtime one, and otherwise by
/// name.
pub open spec fn listing_order(a_kind: ListedKind, a_name: Seq<char>, b_kind: ListedKind, b_name: Seq<char>) -> Ordering {
    if a_kind == ListedKind::Wav && b_kind == ListedKind::Realtime {
        Ordering::Less
    } else {
        lexicographic(a_name, b_name)
    }
}

/// The first `i` characters of the two texts are the same.
pub open spec fn same_prefix(a: Seq<char>, b: Seq<char>, i: int) -> bool {
    forall|k: int| 0 <= k < i ==> #[trigger] a[k] == b[k]
}

/// Texts that agree on their first `i` characters compare as what follows.
proof fn lemma_lex_sign_after(a: Seq<char>, b: Seq<char>, i: int)
    requires
        0 <= i <= a.len(),
        i <= b.len(),
        same_prefix(a, b, i),
    ensures
        lex_sign(a, b) == lex_sign(a.skip(i), b.skip(i)),
    decreases i,
{
    if i > 0 {
        lemma_lex_sign_after(a, b, i - 1);
        assert(a.skip(i - 1).drop_first() =~= a.skip(i));
        assert(b.skip(i - 1).drop_first() =~= b.skip(i));
        assert(a.skip(i - 1)[0] == a[i - 1]);
        assert(b.skip(i - 1)[0] == b[i - 1]);
    } else {
        assert(a.skip(0) =~= a);
        assert(b.skip(0) =~= b);
    }
}

/// The comparison turns round when its texts swap, and finds texts equal exactly when they are.
proof fn lemma_lex_sign_antisymmetric(a: Seq<char>, b: Seq<char>)
    ensures
        lex_sign(a, b) == -lex_sign(b, a),
        (lex_sign(a, b) == 0) == (a == b),
        -1 <= lex_sign(a, b) <= 1,
    decreases a.len(),
{
    if a.len() > 0 && b.len() > 0 {
        lemma_lex_sign_antisymmetric(a.drop_first(), b.drop_first());
        if a[0] == b[0] && a.drop_first() == b.drop_first() {
            assert(a =~= seq![a[0]] + a.drop_first());
            assert(b =~= seq![b[0]] + b.drop_first());
        }
        if a == b {
            assert(a.drop_first() == b.drop_first());
        }
    } else if a.len() == 0 && b.len() == 0 {
        assert(a =~= b);
    }
}

/// Names are ordered character by character: at the first character in which they differ the
/// smaller character comes first, a proper prefix comes before the longer name, only equal
/// names compare equal, and swapping the names turns the order round.
pub proof fn lemma_lexicographic_order(a: Seq<char>, b: Seq<char>, i: int)
    ensures
        (0 <= i < a.len() && i < b.len() && same_prefix(a, b, i) && a[i] < b[i]) ==> lexicographic(a, b) == Ordering::Less,
        (0 <= i < a.len() && i < b.len() && same_prefix(a, b, i) && a[i] > b[i]) ==> lexicographic(a, b) == Ordering::Greater,
        (i == a.len() && i < b.len() && same_prefix(a, b, i)) ==> lexicographic(a, b) == Ordering::Less,
        (lexicographic(a, b) == Ordering::Equal) == (a == b),
        (lexicographic(a, b) == Ordering::Less) == (lexicographic(b, a) == Ordering::Greater),
{
    lemma_lex_sign_antisymmetric(a, b);
    if 0 <= i <= a.len() && i <= b.len() && same_prefix(a, b, i) {
        lemma_lex_sign_after(a, b, i);
        if i < a.len() && i < b.len() {
            assert(a.skip(i)[0] == a[i]);
            assert(b.skip(i)[0] == b[i]);
        }
        if i == a.len() && i < b.len() {
            assert(a.skip(i).len() == 0);
        }
    }
}

/// A WAV source is listed before a realtime one whatever their names; sources of one kind are
/// listed by name.
pub proof fn lemma_listing_order(a_kind: ListedKind, a_name: Seq<char>, b_kind: ListedKind, b_name: Seq<char>)
    ensures
        a_kind == ListedKind::Wav && b_kind == ListedKind::Realtime ==> listing_order(a_kind, a_name, b_kind, b_name) == Ordering::Less,
        a_kind == b_kind ==> listing_order(a_kind, a_name, b_kind, b_name) == lexicographic(a_name, b_name),
{
}

/// The index of the first character in which the texts differ, or the length of the shorter text
/// if one is a prefix of the other; the texts compare as the characters at that index do.
fn first_difference(a: &str, b: &str) -> (r: usize)
    ensures
        r <= a@.len(),
        r <= b@.len(),
        lex_sign(a@, b@) == (if r < a@.len() && r < b@.len() {
            if a@[r as int] < b@[r as int] { -1int } else { 1int }
        } else if r < a@.len() {
            1int
        } else if r < b@.len() {
            -1int
        } else {
            0int
        }),
{
    let n = a.unicode_len();
    let m = b.unicode_len();
    let mut i: usize = 0;
    while i < n && i < m
        invariant
            i <= n,
            i <= m,
            n == a@.len(),
            m == b@.len(),
            same_prefix(a@, b@, i as int),
        decreases n - i,
    {
        if a.get_char(i) != b.get_char(i) {
            proof {
                lemma_lex_sign_after(a@, b@, i as int);
            }
            return i;
        }
        i = i + 1;
    }
    proof {
        lemma_lex_sign_after(a@, b@, i as int);
    }
    i
}

/// Compare two names character by character.
pub fn compare_names(a: &str, b: &str) -> (r: Ordering)
    ensures
        r == lexicographic(a@, b@),
{
    let i = first_difference(a, b);
    let n = a.unicode_len();
    let m = b.unicode_len();
    if i < n && i < m {
        if a.get_char(i) < b.get_char(i) { Ordering::Less } else { Ordering::Greater }
    } else if i < n {
        Ordering::Greater
    } else if i < m {
        Ordering::Less
    } else {
        Ordering::Equal
    }
}

/// Sort sources by kind and then name when displaying them in the list: a WAV source comes
/// before a realtime one; any other pair is ordered by name.
pub fn source_display_order(a_kind: ListedKind, a_name: &str, b_kind: ListedKind, b_name: &str) -> (r: Ordering)
    ensures
        r == listing_order(a_kind, a_name@, b_kind, b_name@),
{
    match (a_kind, b_kind) {
        (ListedKind::Wav, ListedKind::Realtime) => Ordering::Less,
        _ => compare_names(a_name, b_name),
    }
}

} // verus!
