//! Utility routines shared by the boot subsystem: address ranges, powers of
//! two and string splitting.

use vstd::arithmetic::power2::{
    lemma2_to64, lemma2_to64_rest, lemma_pow2_strictly_increases, lemma_pow2_unfold, pow2,
};
use vstd::prelude::*;

verus! {

pub const KB: u64 = 1024;

pub const MB: u64 = KB * 1024;

pub const GB: u64 = MB * 1024;

/// A half-open range `[start, end)` of addresses.
#[derive(Clone, Copy, Debug, PartialEq, Eq, Structural)]
pub struct MemRange {
    pub start: u64,
    pub end: u64,
}

impl MemRange {
    /// A range is well formed when it does not wrap: `start <= end`.
    pub open spec fn wf(self) -> bool {
        self.start <= self.end
    }

    pub open spec fn len_spec(self) -> int {
        self.end - self.start
    }

    pub open spec fn contains_addr(self, a: int) -> bool {
        self.start <= a < self.end
    }

    pub fn new(start: u64, end: u64) -> (r: MemRange)
        ensures
            r.start == start,
            r.end == end,
    {
        MemRange { start, end }
    }

    pub fn len(&self) -> (r: u64)
        requires
            self.wf(),
        ensures
            r == self.len_spec(),
    {
        self.end - self.start
    }

    pub fn is_empty(&self) -> (r: bool)
        ensures
            r == (self.len_spec() <= 0),
    {
        self.end <= self.start
    }
}

/// What it means for `parent` to contain the non-empty range `child`.
pub open spec fn range_contains_spec(parent: MemRange, child: MemRange) -> bool {
    &&& child.start < child.end
    &&& parent.start <= child.start
    &&& child.end <= parent.end
}

/// True when every address of the non-empty `child` lies inside `parent`.
pub fn range_contains(parent: &MemRange, child: &MemRange) -> (r: bool)
    requires
        parent.wf(),
    ensures
        r == range_contains_spec(*parent, *child),
{
    child.start < child.end && parent.start <= child.start && child.end <= parent.end
}

/// Floor of the base-2 logarithm: `pow2(r) <= v < pow2(r + 1)`.
pub fn log2_usize(v: u64) -> (r: u32)
    requires
        v != 0,
    ensures
        r < 64,
        pow2(r as nat) <= v < pow2(r as nat + 1),
{
    let mut r: u32 = 0;
    let mut x: u64 = v;
    proof {
        lemma2_to64();
    }
    while x >= 2
        invariant
            1 <= x,
            r < 64,
            pow2(r as nat) <= v,
            x * pow2(r as nat) <= v < (x + 1) * pow2(r as nat),
        decreases x,
    {
        proof {
            lemma_pow2_unfold(r as nat + 1);
            assert(x / 2 * pow2(r as nat + 1) <= v && pow2(r as nat + 1) <= v) by (
            nonlinear_arith)
                requires
                    x * pow2(r as nat) <= v,
                    pow2(r as nat + 1) == 2 * pow2(r as nat),
                    x >= 2,
                    pow2(r as nat) >= 1,
            ;
            assert(v < (x / 2 + 1) * pow2(r as nat + 1)) by (nonlinear_arith)
                requires
                    v < (x + 1) * pow2(r as nat),
                    pow2(r as nat + 1) == 2 * pow2(r as nat),
                    x >= 2,
                    pow2(r as nat) >= 1,
            ;
            if r as nat + 1 >= 64 {
                lemma2_to64_rest();
                if r as nat + 1 > 64 {
                    lemma_pow2_strictly_increases(64, r as nat + 1);
                }
                assert(pow2(r as nat + 1) >= pow2(64));
                assert(false);
            }
        }
        x = x / 2;
        r = r + 1;
    }
    proof {
        lemma_pow2_unfold(r as nat + 1);
        assert(x == 1);
    }
    r
}

/// Compares two string slices character by character.
pub fn str_eq(a: &str, b: &str) -> (r: bool)
    ensures
        r == (a@ == b@),
{
    let an: usize = a.unicode_len();
    let bn: usize = b.unicode_len();
    if an != bn {
        return false;
    }
    let mut i: usize = 0;
    while i < an
        invariant
            i <= an,
            an == a@.len(),
            an == b@.len(),
            forall|j: int| 0 <= j < i ==> a@[j] == b@[j],
        decreases an - i,
    {
        if a.get_char(i) != b.get_char(i) {
            return false;
        }
        i = i + 1;
    }
    proof {
        assert(a@ =~= b@);
    }
    true
}

/// Where the first occurrence of `sep` splits `s`: the text before it and
/// the text after it, or the whole text and an empty remainder when `sep`
/// does not occur.
pub open spec fn split_at_first(s: Seq<char>, sep: char) -> (Seq<char>, Seq<char>)
    decreases s.len(),
{
    if s.len() == 0 {
        (Seq::empty(), Seq::empty())
    } else if s[0] == sep {
        (Seq::empty(), s.drop_first())
    } else {
        let r = split_at_first(s.drop_first(), sep);
        (seq![s[0]] + r.0, r.1)
    }
}

/// The split is pinned by its shape: a prefix free of the separator,
/// followed (when the separator occurs at all) by the separator and the
/// remainder.
pub proof fn lemma_split_characterization(
    s: Seq<char>,
    sep: char,
    before: Seq<char>,
    after: Seq<char>,
)
    requires
        !before.contains(sep),
        s.contains(sep) ==> s == before + seq![sep] + after,
        !s.contains(sep) ==> before == s && after == Seq::<char>::empty(),
    ensures
        split_at_first(s, sep) == (before, after),
    decreases s.len(),
{
    if !s.contains(sep) {
        if s.len() == 0 {
            assert(split_at_first(s, sep) == (Seq::<char>::empty(), Seq::<char>::empty()));
            assert(before =~= Seq::<char>::empty());
        } else {
            assert(s[0] != sep);
            assert(!s.drop_first().contains(sep)) by {
                if s.drop_first().contains(sep) {
                    let j = choose|j: int| 0 <= j < s.drop_first().len() && s.drop_first()[j]
                        == sep;
                    assert(s[j + 1] == sep);
                }
            }
            lemma_split_characterization(s.drop_first(), sep, s.drop_first(), Seq::empty());
            assert(seq![s[0]] + s.drop_first() =~= s);
        }
    } else {
        assert(s == before + seq![sep] + after);
        assert(s.len() == before.len() + 1 + after.len());
        if before.len() == 0 {
            assert(s[0] == sep);
            assert(s.drop_first() =~= after);
        } else {
            assert(s[0] == before[0]);
            assert(s[0] != sep) by {
                assert(before[0] == s[0]);
                if s[0] == sep {
                    assert(before.contains(sep));
                }
            }
            let s2 = s.drop_first();
            let b2 = before.drop_first();
            assert(s2 =~= b2 + seq![sep] + after);
            assert(!b2.contains(sep)) by {
                if b2.contains(sep) {
                    let j = choose|j: int| 0 <= j < b2.len() && b2[j] == sep;
                    assert(before[j + 1] == sep);
                }
            }
            assert(s2.contains(sep)) by {
                assert(s2[b2.len() as int] == sep);
            }
            lemma_split_characterization(s2, sep, b2, after);
            assert(seq![s[0]] + b2 =~= before);
        }
    }
}

/// Splits `s` at the first occurrence of `sep`.
///
/// Returns the text before the first separator and the text after it; when
/// `sep` does not occur, the whole input and an empty remainder.
pub fn split_first_str<'a>(s: &'a str, sep: char) -> (r: (&'a str, &'a str))
    ensures
        !r.0@.contains(sep),
        s@.contains(sep) ==> s@ == r.0@ + seq![sep] + r.1@,
        !s@.contains(sep) ==> r.0@ == s@ && r.1@ =~= Seq::<char>::empty(),
{
    let n: usize = s.unicode_len();
    let mut i: usize = 0;
    while i < n
        invariant
            i <= n,
            n == s@.len(),
            forall|j: int| 0 <= j < i ==> s@[j] != sep,
        decreases n - i,
    {
        if s.get_char(i) == sep {
            let before = s.substring_char(0, i);
            let after = s.substring_char(i + 1, n);
            proof {
                assert(s@ =~= before@ + seq![sep] + after@);
                assert(!before@.contains(sep));
            }
            return (before, after);
        }
        i = i + 1;
    }
    let whole = s.substring_char(0, n);
    let rest = "";
    proof {
        reveal_strlit("");
        assert(whole@ =~= s@);
        assert(rest@ =~= Seq::<char>::empty());
        assert(!s@.contains(sep));
    }
    (whole, rest)
}

/// Empty marker trait, kept for turning concrete types into trait objects.
pub trait Empty {

}

} // verus!
