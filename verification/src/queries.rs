//! Read-only lookups over a loaded dictionary.

use crate::decode::str_eq;
use crate::model::{Entry, EntryV, Kanjidic, Meaning};
use vstd::prelude::*;

verus! {

/// The index of the first entry whose literal is `literal`, if any.
pub open spec fn find_literal_spec(entries: Seq<EntryV>, literal: Seq<char>) -> Option<int>
    decreases entries.len(),
{
    if entries.len() == 0 {
        None
    } else if entries[0].literal == literal {
        Some(0)
    } else {
        match find_literal_spec(entries.drop_first(), literal) {
            Some(i) => Some(i + 1),
            None => None,
        }
    }
}

/// A literal carried by no entry is never found.
pub proof fn lemma_find_literal_none(entries: Seq<EntryV>, literal: Seq<char>)
    requires
        forall|k: int| 0 <= k < entries.len() ==> (#[trigger] entries[k]).literal != literal,
    ensures
        find_literal_spec(entries, literal) is None,
    decreases entries.len(),
{
    if entries.len() > 0 {
        lemma_find_literal_none(entries.drop_first(), literal);
    }
}

/// The first index carrying the literal is the one found.
pub proof fn lemma_find_literal_at(entries: Seq<EntryV>, literal: Seq<char>, i: int)
    requires
        0 <= i < entries.len(),
        entries[i].literal == literal,
        forall|k: int| 0 <= k < i ==> (#[trigger] entries[k]).literal != literal,
    ensures
        find_literal_spec(entries, literal) == Some(i),
    decreases i,
{
    if i > 0 {
        lemma_find_literal_at(entries.drop_first(), literal, i - 1);
    }
}

/// When exactly one entry carries the literal, the search yields exactly
/// that entry's index; literals are assumed unique within one document.
pub proof fn lemma_find_literal_unique(entries: Seq<EntryV>, literal: Seq<char>, i: int)
    requires
        0 <= i < entries.len(),
        entries[i].literal == literal,
        forall|k: int|
            0 <= k < entries.len() && k != i ==> (#[trigger] entries[k]).literal != literal,
    ensures
        find_literal_spec(entries, literal) == Some(i),
{
    lemma_find_literal_at(entries, literal, i);
}

/// The subsequence of `s` selected by the mask `keep`.
pub open spec fn mask_filter<T>(s: Seq<T>, keep: Seq<bool>) -> Seq<T>
    decreases s.len(),
{
    if s.len() == 0 {
        Seq::empty()
    } else {
        let rest = mask_filter(s.drop_last(), keep.drop_last());
        if keep.len() == s.len() && keep.last() {
            rest.push(s.last())
        } else {
            rest
        }
    }
}

/// An all-false mask selects nothing.
pub proof fn lemma_mask_filter_none<T>(s: Seq<T>, keep: Seq<bool>)
    requires
        keep.len() == s.len(),
        forall|i: int| 0 <= i < keep.len() ==> !(#[trigger] keep[i]),
    ensures
        mask_filter(s, keep).len() == 0,
    decreases s.len(),
{
    if s.len() > 0 {
        lemma_mask_filter_none(s.drop_last(), keep.drop_last());
    }
}

/// An all-true mask selects the whole sequence.
pub proof fn lemma_mask_filter_all<T>(s: Seq<T>, keep: Seq<bool>)
    requires
        keep.len() == s.len(),
        forall|i: int| 0 <= i < keep.len() ==> #[trigger] keep[i],
    ensures
        mask_filter(s, keep) == s,
    decreases s.len(),
{
    if s.len() > 0 {
        lemma_mask_filter_all(s.drop_last(), keep.drop_last());
        assert(mask_filter(s, keep) =~= s);
    }
}

/// How one kept-or-dropped decision for an entry is justified: a kept entry
/// has some meaning the predicate accepted; a dropped entry had every
/// meaning refused.
pub open spec fn meaning_keep_ok<F: Fn(&Meaning) -> bool>(predicate: F, e: Entry, b: bool) -> bool {
    if b {
        exists|g: int, j: int|
            0 <= g < e.reading_meanings@.len() && 0 <= j
                < e.reading_meanings@[g].meanings@.len() && call_ensures(
                predicate,
                (&e.reading_meanings@[g].meanings@[j],),
                true,
            )
    } else {
        forall|g: int, j: int|
            0 <= g < e.reading_meanings@.len() && 0 <= j
                < e.reading_meanings@[g].meanings@.len() ==> call_ensures(
                predicate,
                (&e.reading_meanings@[g].meanings@[j],),
                false,
            )
    }
}

/// A predicate that can only answer false keeps no entry: the result mask
/// is all false and the selection is empty.
pub proof fn lemma_filter_meaning_all_false<F: Fn(&Meaning) -> bool>(
    predicate: F,
    entries: Seq<Entry>,
    keep: Seq<bool>,
)
    requires
        forall|a: (&Meaning,), o: bool| call_ensures(predicate, a, o) ==> o == false,
        keep.len() == entries.len(),
        forall|i: int|
            0 <= i < keep.len() ==> meaning_keep_ok(predicate, entries[i], #[trigger] keep[i]),
    ensures
        forall|i: int| 0 <= i < keep.len() ==> !(#[trigger] keep[i]),
        mask_filter(entries.map_values(|e: Entry| e@), keep).len() == 0,
{
    assert forall|i: int| 0 <= i < keep.len() implies !(#[trigger] keep[i]) by {
        if keep[i] {
            assert(meaning_keep_ok(predicate, entries[i], true));
        }
    }
    lemma_mask_filter_none(entries.map_values(|e: Entry| e@), keep);
}

/// Whether some meaning of `e`, in any of its sense groups, satisfies the
/// pure predicate `p`.
pub open spec fn entry_has_meaning(e: Entry, p: spec_fn(Meaning) -> bool) -> bool {
    exists|g: int, j: int|
        0 <= g < e.reading_meanings@.len() && 0 <= j < e.reading_meanings@[g].meanings@.len() && p(
            e.reading_meanings@[g].meanings@[j],
        )
}

/// For a pure predicate — one whose contract says it computes exactly the
/// spec predicate `p` — the mask is the canonical one: an entry is kept
/// precisely when some meaning of it satisfies `p`, so the selection is
/// exactly the entries containing a matching meaning, in document order.
pub proof fn lemma_filter_meaning_pure<F: Fn(&Meaning) -> bool>(
    predicate: F,
    entries: Seq<Entry>,
    keep: Seq<bool>,
    p: spec_fn(Meaning) -> bool,
)
    requires
        forall|m: &Meaning, b: bool| call_ensures(predicate, (m,), b) <==> b == p(*m),
        keep.len() == entries.len(),
        forall|i: int|
            0 <= i < keep.len() ==> meaning_keep_ok(predicate, entries[i], #[trigger] keep[i]),
    ensures
        forall|i: int|
            0 <= i < keep.len() ==> #[trigger] keep[i] == entry_has_meaning(entries[i], p),
{
    assert forall|i: int| 0 <= i < keep.len() implies #[trigger] keep[i] == entry_has_meaning(
        entries[i],
        p,
    ) by {
        assert(meaning_keep_ok(predicate, entries[i], keep[i]));
        let e = entries[i];
        if keep[i] {
            let (g, j) = choose|g: int, j: int|
                0 <= g < e.reading_meanings@.len() && 0 <= j
                    < e.reading_meanings@[g].meanings@.len() && call_ensures(
                    predicate,
                    (&e.reading_meanings@[g].meanings@[j],),
                    true,
                );
            assert(p(e.reading_meanings@[g].meanings@[j]));
        } else {
            if entry_has_meaning(e, p) {
                let (g, j) = choose|g: int, j: int|
                    0 <= g < e.reading_meanings@.len() && 0 <= j
                        < e.reading_meanings@[g].meanings@.len() && p(
                        e.reading_meanings@[g].meanings@[j],
                    );
                assert(call_ensures(predicate, (&e.reading_meanings@[g].meanings@[j],), false));
            }
        }
    }
}

/// For a predicate with a deterministic contract, the mask is exact: an
/// entry is kept precisely when some meaning of it satisfies the predicate.
pub proof fn lemma_filter_meaning_exact<F: Fn(&Meaning) -> bool>(
    predicate: F,
    entries: Seq<Entry>,
    keep: Seq<bool>,
    i: int,
)
    requires
        forall|a: (&Meaning,), o1: bool, o2: bool|
            call_ensures(predicate, a, o1) && call_ensures(predicate, a, o2) ==> o1 == o2,
        keep.len() == entries.len(),
        forall|k: int|
            0 <= k < keep.len() ==> meaning_keep_ok(predicate, entries[k], #[trigger] keep[k]),
        0 <= i < keep.len(),
    ensures
        keep[i] <==> exists|g: int, j: int|
            0 <= g < entries[i].reading_meanings@.len() && 0 <= j
                < entries[i].reading_meanings@[g].meanings@.len() && call_ensures(
                predicate,
                (&entries[i].reading_meanings@[g].meanings@[j],),
                true,
            ),
{
    assert(meaning_keep_ok(predicate, entries[i], keep[i]));
}

impl Kanjidic {
    /// The first entry whose literal is exactly `literal`, or nothing when
    /// no entry carries it.
    pub fn find_literal(&self, literal: &str) -> (r: Option<&Entry>)
        ensures
            match find_literal_spec(self@.entries, literal@) {
                Some(i) => r matches Some(e) && e@ == self@.entries[i],
                None => r is None,
            },
    {
        let ghost sv = self@.entries;
        let n = self.entries.len();
        let mut j: usize = 0;
        while j < n
            invariant
                n == self.entries@.len(),
                sv == self@.entries,
                j <= n,
                forall|k: int| 0 <= k < j ==> (#[trigger] sv[k]).literal != literal@,
            decreases n - j,
        {
            if str_eq(self.entries[j].literal.as_str(), literal) {
                proof {
                    lemma_find_literal_at(sv, literal@, j as int);
                }
                return Some(&self.entries[j]);
            }
            j = j + 1;
        }
        proof {
            lemma_find_literal_none(sv, literal@);
        }
        None
    }

    /// Every entry the predicate holds of, in document order. The mask
    /// `keep` records the predicate's answer for each entry in turn.
    pub fn filter<F: Fn(&Entry) -> bool>(&self, predicate: F) -> (r: Vec<&Entry>)
        requires
            forall|i: int|
                0 <= i < self.entries@.len() ==> call_requires(
                    predicate,
                    (&self.entries@[i],),
                ),
        ensures
            exists|keep: Seq<bool>|
                {
                    &&& keep.len() == self.entries@.len()
                    &&& (forall|i: int|
                        0 <= i < keep.len() ==> call_ensures(
                            predicate,
                            (&self.entries@[i],),
                            #[trigger] keep[i],
                        ))
                    &&& r@.len() == mask_filter(self@.entries, keep).len()
                    &&& (forall|j: int|
                        0 <= j < r@.len() ==> (#[trigger] r@[j])@ == mask_filter(
                            self@.entries,
                            keep,
                        )[j])
                },
    {
        let ghost sv = self@.entries;
        let n = self.entries.len();
        let mut out: Vec<&Entry> = Vec::new();
        let ghost keep = Seq::<bool>::empty();
        let mut j: usize = 0;
        while j < n
            invariant
                n == self.entries@.len(),
                sv == self@.entries,
                j <= n,
                keep.len() == j,
                forall|i: int|
                    0 <= i < self.entries@.len() ==> call_requires(
                        predicate,
                        (&self.entries@[i],),
                    ),
                forall|i: int|
                    0 <= i < j ==> call_ensures(predicate, (&self.entries@[i],), #[trigger] keep[i]),
                out@.len() == mask_filter(sv.take(j as int), keep).len(),
                forall|k: int|
                    0 <= k < out@.len() ==> (#[trigger] out@[k])@ == mask_filter(
                        sv.take(j as int),
                        keep,
                    )[k],
            decreases n - j,
        {
            let b = predicate(&self.entries[j]);
            proof {
                assert(sv.take(j + 1).drop_last() =~= sv.take(j as int));
                assert(keep.push(b).drop_last() =~= keep);
                assert(sv.take(j + 1).last() == sv[j as int]);
            }
            if b {
                out.push(&self.entries[j]);
            }
            proof {
                keep = keep.push(b);
            }
            j = j + 1;
        }
        proof {
            assert(sv.take(n as int) =~= sv);
        }
        out
    }

    /// Every entry having at least one meaning the predicate holds of, in
    /// document order.
    pub fn filter_meaning<F: Fn(&Meaning) -> bool>(&self, predicate: F) -> (r: Vec<&Entry>)
        requires
            forall|i: int, g: int, j: int|
                0 <= i < self.entries@.len() && 0 <= g
                    < self.entries@[i].reading_meanings@.len() && 0 <= j
                    < self.entries@[i].reading_meanings@[g].meanings@.len() ==> call_requires(
                    predicate,
                    (&self.entries@[i].reading_meanings@[g].meanings@[j],),
                ),
        ensures
            exists|keep: Seq<bool>|
                {
                    &&& keep.len() == self.entries@.len()
                    &&& (forall|i: int|
                        0 <= i < keep.len() ==> meaning_keep_ok(
                            predicate,
                            self.entries@[i],
                            #[trigger] keep[i],
                        ))
                    &&& r@.len() == mask_filter(self@.entries, keep).len()
                    &&& (forall|j: int|
                        0 <= j < r@.len() ==> (#[trigger] r@[j])@ == mask_filter(
                            self@.entries,
                            keep,
                        )[j])
                },
    {
        let ghost sv = self@.entries;
        let n = self.entries.len();
        let mut out: Vec<&Entry> = Vec::new();
        let ghost keep = Seq::<bool>::empty();
        let mut j: usize = 0;
        while j < n
            invariant
                n == self.entries@.len(),
                sv == self@.entries,
                j <= n,
                keep.len() == j,
                forall|i: int, g: int, jj: int|
                    0 <= i < self.entries@.len() && 0 <= g
                        < self.entries@[i].reading_meanings@.len() && 0 <= jj
                        < self.entries@[i].reading_meanings@[g].meanings@.len() ==> call_requires(
                        predicate,
                        (&self.entries@[i].reading_meanings@[g].meanings@[jj],),
                    ),
                forall|i: int|
                    0 <= i < j ==> meaning_keep_ok(predicate, self.entries@[i], #[trigger] keep[i]),
                out@.len() == mask_filter(sv.take(j as int), keep).len(),
                forall|k: int|
                    0 <= k < out@.len() ==> (#[trigger] out@[k])@ == mask_filter(
                        sv.take(j as int),
                        keep,
                    )[k],
            decreases n - j,
        {
            let b = entry_meaning_match(&self.entries[j], &predicate);
            proof {
                assert(sv.take(j + 1).drop_last() =~= sv.take(j as int));
                assert(keep.push(b).drop_last() =~= keep);
                assert(sv.take(j + 1).last() == sv[j as int]);
            }
            if b {
                out.push(&self.entries[j]);
            }
            proof {
                keep = keep.push(b);
            }
            j = j + 1;
        }
        proof {
            assert(sv.take(n as int) =~= sv);
        }
        out
    }
}

/// Whether some meaning of `e`, in any of its sense groups, satisfies the
/// predicate.
fn entry_meaning_match<F: Fn(&Meaning) -> bool>(e: &Entry, predicate: &F) -> (b: bool)
    requires
        forall|g: int, j: int|
            0 <= g < e.reading_meanings@.len() && 0 <= j
                < e.reading_meanings@[g].meanings@.len() ==> call_requires(
                *predicate,
                (&e.reading_meanings@[g].meanings@[j],),
            ),
    ensures
        meaning_keep_ok(*predicate, *e, b),
{
    let gn = e.reading_meanings.len();
    let mut g: usize = 0;
    while g < gn
        invariant
            gn == e.reading_meanings@.len(),
            g <= gn,
            forall|gg: int, j: int|
                0 <= gg < e.reading_meanings@.len() && 0 <= j
                    < e.reading_meanings@[gg].meanings@.len() ==> call_requires(
                    *predicate,
                    (&e.reading_meanings@[gg].meanings@[j],),
                ),
            forall|gg: int, j: int|
                0 <= gg < g && 0 <= j < e.reading_meanings@[gg].meanings@.len() ==> call_ensures(
                    *predicate,
                    (&e.reading_meanings@[gg].meanings@[j],),
                    false,
                ),
        decreases gn - g,
    {
        let mn = e.reading_meanings[g].meanings.len();
        let mut j: usize = 0;
        while j < mn
            invariant
                gn == e.reading_meanings@.len(),
                g < gn,
                mn == e.reading_meanings@[g as int].meanings@.len(),
                j <= mn,
                forall|gg: int, jj: int|
                    0 <= gg < e.reading_meanings@.len() && 0 <= jj
                        < e.reading_meanings@[gg].meanings@.len() ==> call_requires(
                        *predicate,
                        (&e.reading_meanings@[gg].meanings@[jj],),
                    ),
                forall|gg: int, jj: int|
                    0 <= gg < g && 0 <= jj < e.reading_meanings@[gg].meanings@.len()
                        ==> call_ensures(
                        *predicate,
                        (&e.reading_meanings@[gg].meanings@[jj],),
                        false,
                    ),
                forall|jj: int|
                    0 <= jj < j ==> call_ensures(
                        *predicate,
                        (&e.reading_meanings@[g as int].meanings@[jj],),
                        false,
                    ),
            decreases mn - j,
        {
            if predicate(&e.reading_meanings[g].meanings[j]) {
                return true;
            }
            j = j + 1;
        }
        g = g + 1;
    }
    false
}

} // verus!