//! Which variants and which renditions of a master playlist are recorded.

use crate::playlist::{AlternativeMedia, AlternativeMediaModel, VariantStream, VariantStreamModel};
use vstd::prelude::*;
use vstd::slice::slice_subrange;

verus! {

/// Which variant streams to record, by name.
#[derive(Debug, Default, Copy, Clone, PartialEq, Eq, PartialOrd, Ord)]
pub enum VariantSelect {
    /// Select the first variant stream.
    #[default]
    First,
    /// Select the lowest variant stream.
    Lowest,
    /// Select the highest variant stream.
    Highest,
    /// Select all variant streams.
    All,
}

/// Which variant streams to record: by name, or the best one within a
/// bandwidth.
#[derive(Debug, Copy, Clone)]
pub enum VariantSelectOptions {
    Named(VariantSelect),
    Bandwidth(u64),
}

impl Default for VariantSelectOptions {
    fn default() -> (r: Self)
        ensures
            r == VariantSelectOptions::Named(VariantSelect::First),
    {
        VariantSelectOptions::Named(VariantSelect::First)
    }
}

/// Which renditions of one kind to record.
#[derive(Debug, Default, Copy, Clone, PartialEq, Eq, PartialOrd, Ord)]
pub enum MediaSelect {
    /// Select the default rendition.
    #[default]
    Default,
    /// Select the first rendition.
    First,
    /// Select all renditions.
    All,
}

/// The index of the first among the first `n` variants whose bandwidth none
/// of them undercuts.
pub open spec fn lowest_at(variants: Seq<VariantStreamModel>, n: int) -> int
    decreases n,
{
    if n <= 1 {
        0
    } else {
        let k = lowest_at(variants, n - 1);
        if variants[n - 1].bandwidth < variants[k].bandwidth {
            n - 1
        } else {
            k
        }
    }
}

/// The index of the first among the first `n` variants whose bandwidth none
/// of them exceeds.
pub open spec fn highest_at(variants: Seq<VariantStreamModel>, n: int) -> int
    decreases n,
{
    if n <= 1 {
        0
    } else {
        let k = highest_at(variants, n - 1);
        if variants[n - 1].bandwidth > variants[k].bandwidth {
            n - 1
        } else {
            k
        }
    }
}

/// Among the first `n` variants whose bandwidth is at most `cap`, the index
/// of the first whose bandwidth none of them exceeds; `None` where every one
/// is above `cap`.
pub open spec fn best_within(variants: Seq<VariantStreamModel>, cap: u64, n: int) -> Option<int>
    decreases n,
{
    if n <= 0 {
        None
    } else {
        match best_within(variants, cap, n - 1) {
            Some(k) => if variants[n - 1].bandwidth <= cap && variants[n - 1].bandwidth
                > variants[k].bandwidth {
                Some(n - 1)
            } else {
                Some(k)
            },
            None => if variants[n - 1].bandwidth <= cap {
                Some(n - 1)
            } else {
                None
            },
        }
    }
}

/// The index of the first rendition among the first `n` that is marked as
/// the default, or `n` where none is.
pub open spec fn first_default(medias: Seq<AlternativeMediaModel>, n: int) -> int
    decreases n,
{
    if n <= 0 {
        0
    } else {
        let k = first_default(medias, n - 1);
        if k < n - 1 {
            k
        } else if medias[n - 1].default {
            n - 1
        } else {
            n
        }
    }
}

impl VariantSelectOptions {
    /// The variants that the option selects, as the range of their indices:
    /// the first index and the one after the last.
    pub open spec fn range(self, variants: Seq<VariantStreamModel>) -> (int, int) {
        let len = variants.len() as int;
        if len == 0 {
            (0, 0)
        } else {
            match self {
                VariantSelectOptions::Named(VariantSelect::First) => (0, 1),
                VariantSelectOptions::Named(VariantSelect::Lowest) => (
                    lowest_at(variants, len),
                    lowest_at(variants, len) + 1,
                ),
                VariantSelectOptions::Named(VariantSelect::Highest) => (
                    highest_at(variants, len),
                    highest_at(variants, len) + 1,
                ),
                VariantSelectOptions::Named(VariantSelect::All) => (0, len),
                VariantSelectOptions::Bandwidth(cap) => match best_within(variants, cap, len) {
                    Some(k) => (k, k + 1),
                    None => (lowest_at(variants, len), lowest_at(variants, len) + 1),
                },
            }
        }
    }

    /// The variants that the option selects, in their order.
    pub open spec fn select(self, variants: Seq<VariantStreamModel>) -> Seq<VariantStreamModel> {
        variants.subrange(self.range(variants).0, self.range(variants).1)
    }

    /// The range of the variants that the option selects, by
    /// [`VariantSelectOptions::range`].
    pub fn variant_range(self, variants: &[VariantStream]) -> (r: (usize, usize))
        ensures
            r.0 == self.range(variants.deep_view()).0,
            r.1 == self.range(variants.deep_view()).1,
            r.0 <= r.1 <= variants@.len(),
    {
        proof {
            lemma_lowest_at(variants.deep_view(), variants@.len() as int);
            lemma_highest_at(variants.deep_view(), variants@.len() as int);
        }
        if variants.len() == 0 {
            return (0, 0);
        }
        match self {
            VariantSelectOptions::Named(variant) => match variant {
                VariantSelect::First => (0, 1),
                VariantSelect::Lowest => {
                    let idx = Self::lowest_index(variants);
                    (idx, idx + 1)
                },
                VariantSelect::Highest => {
                    let idx = Self::highest_index(variants);
                    (idx, idx + 1)
                },
                VariantSelect::All => (0, variants.len()),
            },
            VariantSelectOptions::Bandwidth(max_bandwidth) => {
                proof {
                    lemma_best_within(variants.deep_view(), max_bandwidth, variants@.len() as int);
                }
                match Self::best_index_within(variants, max_bandwidth) {
                    Some(idx) => (idx, idx + 1),
                    None => {
                        // Fall back to lowest variant
                        let idx = Self::lowest_index(variants);
                        (idx, idx + 1)
                    },
                }
            },
        }
    }

    /// The variants that the option selects: the first, the one with the
    /// lowest or the highest bandwidth, all of them, or the one with the
    /// highest bandwidth within a limit (the lowest of all where none is
    /// within it). Of several with the same bandwidth the first is taken.
    pub fn filter_variants<'a>(self, variants: &'a [VariantStream]) -> (r: &'a [VariantStream])
        ensures
            r@ == variants@.subrange(
                self.range(variants.deep_view()).0,
                self.range(variants.deep_view()).1,
            ),
            r.deep_view() == self.select(variants.deep_view()),
            0 <= self.range(variants.deep_view()).0 <= self.range(variants.deep_view()).1
                <= variants@.len(),
    {
        let r = match self {
            VariantSelectOptions::Named(variant) => match variant {
                VariantSelect::First => Self::first_variant(variants),
                VariantSelect::Lowest => Self::lowest_variant(variants),
                VariantSelect::Highest => Self::highest_variant(variants),
                VariantSelect::All => {
                    assert(variants@.subrange(0, variants@.len() as int) =~= variants@);
                    variants
                },
            },
            VariantSelectOptions::Bandwidth(max_bandwidth) => Self::variant_with_max_bandwidth(
                variants,
                max_bandwidth,
            ),
        };
        proof {
            lemma_lowest_at(variants.deep_view(), variants@.len() as int);
            lemma_highest_at(variants.deep_view(), variants@.len() as int);
            if let VariantSelectOptions::Bandwidth(cap) = self {
                lemma_best_within(variants.deep_view(), cap, variants@.len() as int);
            }
            assert(r.deep_view() =~= self.select(variants.deep_view()));
        }
        r
    }

    /// The first variant, or none of none.
    pub fn first_variant<'a>(variants: &'a [VariantStream]) -> (r: &'a [VariantStream])
        ensures
            r@ == variants@.subrange(0, if variants@.len() == 0 {
                0int
            } else {
                1int
            }),
            variants@.len() == 0 ==> r@.len() == 0,
            variants@.len() > 0 ==> r@.len() == 1 && r@[0] == variants@[0],
    {
        if variants.len() == 0 {
            slice_subrange(variants, 0, 0)
        } else {
            slice_subrange(variants, 0, 1)
        }
    }

    fn lowest_index(variants: &[VariantStream]) -> (idx: usize)
        requires
            variants@.len() > 0,
        ensures
            idx == lowest_at(variants.deep_view(), variants@.len() as int),
            idx < variants@.len(),
    {
        let mut idx: usize = 0;
        let mut i: usize = 1;
        while i < variants.len()
            invariant
                1 <= i <= variants.len(),
                idx < i,
                idx == lowest_at(variants.deep_view(), i as int),
            decreases variants.len() - i,
        {
            if variants[i].bandwidth < variants[idx].bandwidth {
                idx = i;
            }
            i += 1;
        }
        idx
    }

    fn highest_index(variants: &[VariantStream]) -> (idx: usize)
        requires
            variants@.len() > 0,
        ensures
            idx == highest_at(variants.deep_view(), variants@.len() as int),
            idx < variants@.len(),
    {
        let mut idx: usize = 0;
        let mut i: usize = 1;
        while i < variants.len()
            invariant
                1 <= i <= variants.len(),
                idx < i,
                idx == highest_at(variants.deep_view(), i as int),
            decreases variants.len() - i,
        {
            if variants[i].bandwidth > variants[idx].bandwidth {
                idx = i;
            }
            i += 1;
        }
        idx
    }

    fn best_index_within(variants: &[VariantStream], max_bandwidth: u64) -> (best: Option<usize>)
        ensures
            match best {
                Some(k) => k < variants@.len() && best_within(
                    variants.deep_view(),
                    max_bandwidth,
                    variants@.len() as int,
                ) == Some(k as int),
                None => best_within(variants.deep_view(), max_bandwidth, variants@.len() as int)
                    is None,
            },
    {
        let mut best: Option<usize> = None;
        let mut i: usize = 0;
        while i < variants.len()
            invariant
                i <= variants.len(),
                match best {
                    Some(k) => k < i && best_within(variants.deep_view(), max_bandwidth, i as int)
                        == Some(k as int),
                    None => best_within(variants.deep_view(), max_bandwidth, i as int) is None,
                },
            decreases variants.len() - i,
        {
            if variants[i].bandwidth <= max_bandwidth {
                match best {
                    Some(k) => {
                        if variants[i].bandwidth > variants[k].bandwidth {
                            best = Some(i);
                        }
                    },
                    None => {
                        best = Some(i);
                    },
                }
            }
            i += 1;
        }
        best
    }

    /// The variant with the lowest bandwidth, the first of several; none of
    /// none.
    pub fn lowest_variant<'a>(variants: &'a [VariantStream]) -> (r: &'a [VariantStream])
        ensures
            variants@.len() == 0 ==> r@ == variants@.subrange(0, 0),
            variants@.len() > 0 ==> r@ == variants@.subrange(
                lowest_at(variants.deep_view(), variants@.len() as int),
                lowest_at(variants.deep_view(), variants@.len() as int) + 1,
            ),
            variants@.len() == 0 ==> r@.len() == 0,
            variants@.len() > 0 ==> ({
                let k = lowest_at(variants.deep_view(), variants@.len() as int);
                &&& r@.len() == 1
                &&& 0 <= k < variants@.len()
                &&& r@[0] == variants@[k]
                &&& forall|j: int|
                    0 <= j < variants@.len() ==> r@[0].bandwidth <= (
                    #[trigger] variants@[j]).bandwidth
                &&& forall|j: int|
                    0 <= j < k ==> (#[trigger] variants@[j]).bandwidth > r@[0].bandwidth
            }),
    {
        if variants.len() == 0 {
            return slice_subrange(variants, 0, 0);
        }
        let idx = Self::lowest_index(variants);
        proof {
            let models = variants.deep_view();
            lemma_lowest_at(models, variants@.len() as int);
            assert forall|j: int| 0 <= j < variants@.len() implies models[j].bandwidth == (
            #[trigger] variants@[j]).bandwidth by {}
        }
        slice_subrange(variants, idx, idx + 1)
    }

    /// The variant with the highest bandwidth, the first of several; none
    /// of none.
    pub fn highest_variant<'a>(variants: &'a [VariantStream]) -> (r: &'a [VariantStream])
        ensures
            variants@.len() == 0 ==> r@ == variants@.subrange(0, 0),
            variants@.len() > 0 ==> r@ == variants@.subrange(
                highest_at(variants.deep_view(), variants@.len() as int),
                highest_at(variants.deep_view(), variants@.len() as int) + 1,
            ),
            variants@.len() == 0 ==> r@.len() == 0,
            variants@.len() > 0 ==> ({
                let k = highest_at(variants.deep_view(), variants@.len() as int);
                &&& r@.len() == 1
                &&& 0 <= k < variants@.len()
                &&& r@[0] == variants@[k]
                &&& forall|j: int|
                    0 <= j < variants@.len() ==> r@[0].bandwidth >= (
                    #[trigger] variants@[j]).bandwidth
                &&& forall|j: int|
                    0 <= j < k ==> (#[trigger] variants@[j]).bandwidth < r@[0].bandwidth
            }),
    {
        if variants.len() == 0 {
            return slice_subrange(variants, 0, 0);
        }
        let idx = Self::highest_index(variants);
        proof {
            let models = variants.deep_view();
            lemma_highest_at(models, variants@.len() as int);
            assert forall|j: int| 0 <= j < variants@.len() implies models[j].bandwidth == (
            #[trigger] variants@[j]).bandwidth by {}
        }
        slice_subrange(variants, idx, idx + 1)
    }

    /// Exactly one variant of any there are: one with the highest bandwidth
    /// among those within `max_bandwidth`, or, where none is within it, one
    /// with the lowest bandwidth of all; in both cases the first of several.
    /// None of none.
    pub fn variant_with_max_bandwidth<'a>(variants: &'a [VariantStream], max_bandwidth: u64) -> (r:
        &'a [VariantStream])
        ensures
            variants@.len() == 0 ==> r@ == variants@.subrange(0, 0),
            variants@.len() > 0 ==> r@ == variants@.subrange(
                VariantSelectOptions::Bandwidth(max_bandwidth).range(variants.deep_view()).0,
                VariantSelectOptions::Bandwidth(max_bandwidth).range(variants.deep_view()).1,
            ),
            variants@.len() == 0 ==> r@.len() == 0,
            variants@.len() > 0 ==> ({
                let k = VariantSelectOptions::Bandwidth(max_bandwidth).range(
                    variants.deep_view(),
                ).0;
                &&& r@.len() == 1
                &&& 0 <= k < variants@.len()
                &&& r@ == variants@.subrange(k, k + 1)
                &&& r@[0] == variants@[k]
                &&& (exists|j: int|
                    0 <= j < variants@.len() && (#[trigger] variants@[j]).bandwidth
                        <= max_bandwidth) ==> r@[0].bandwidth <= max_bandwidth && forall|j: int|
                    0 <= j < variants@.len() && (#[trigger] variants@[j]).bandwidth
                        <= max_bandwidth ==> variants@[j].bandwidth <= r@[0].bandwidth
                &&& (forall|j: int|
                    0 <= j < variants@.len() ==> (#[trigger] variants@[j]).bandwidth
                        > max_bandwidth) ==> forall|j: int|
                    0 <= j < variants@.len() ==> r@[0].bandwidth <= (
                    #[trigger] variants@[j]).bandwidth
                &&& forall|j: int|
                    0 <= j < k ==> (#[trigger] variants@[j]).bandwidth != r@[0].bandwidth
            }),
    {
        if variants.len() == 0 {
            return slice_subrange(variants, 0, 0);
        }
        proof {
            let models = variants.deep_view();
            lemma_best_within(models, max_bandwidth, variants@.len() as int);
            lemma_lowest_at(models, variants@.len() as int);
            assert forall|j: int| 0 <= j < variants@.len() implies models[j].bandwidth == (
            #[trigger] variants@[j]).bandwidth by {}
        }
        match Self::best_index_within(variants, max_bandwidth) {
            Some(idx) => slice_subrange(variants, idx, idx + 1),
            // Fall back to lowest variant
            None => Self::lowest_variant(variants),
        }
    }
}

impl MediaSelect {
    /// The renditions that the option selects, as the range of their
    /// indices: the first index and the one after the last.
    pub open spec fn range(self, medias: Seq<AlternativeMediaModel>) -> (int, int) {
        let len = medias.len() as int;
        match self {
            MediaSelect::Default => if first_default(medias, len) < len {
                (first_default(medias, len), first_default(medias, len) + 1)
            } else {
                (0, 0)
            },
            MediaSelect::First => if len == 0 {
                (0, 0)
            } else {
                (0, 1)
            },
            MediaSelect::All => (0, len),
        }
    }

    /// The renditions that the option selects, in their order.
    pub open spec fn select(self, medias: Seq<AlternativeMediaModel>) -> Seq<
        AlternativeMediaModel,
    > {
        medias.subrange(self.range(medias).0, self.range(medias).1)
    }

    /// The range of the renditions that the option selects, by
    /// [`MediaSelect::range`].
    pub fn media_range(self, medias: &[AlternativeMedia]) -> (r: (usize, usize))
        ensures
            r.0 == self.range(medias.deep_view()).0,
            r.1 == self.range(medias.deep_view()).1,
            r.0 <= r.1 <= medias@.len(),
    {
        proof {
            lemma_first_default(medias.deep_view(), medias@.len() as int);
        }
        match self {
            MediaSelect::Default => {
                let idx = Self::default_index(medias);
                if idx < medias.len() {
                    (idx, idx + 1)
                } else {
                    (0, 0)
                }
            },
            MediaSelect::First => if medias.len() == 0 {
                (0, 0)
            } else {
                (0, 1)
            },
            MediaSelect::All => (0, medias.len()),
        }
    }

    fn default_index(medias: &[AlternativeMedia]) -> (idx: usize)
        ensures
            idx == first_default(medias.deep_view(), medias@.len() as int),
            idx <= medias@.len(),
    {
        let mut i: usize = 0;
        while i < medias.len()
            invariant
                i <= medias.len(),
                first_default(medias.deep_view(), i as int) == i,
            decreases medias.len() - i,
        {
            if medias[i].default {
                proof {
                    lemma_first_default_stays(
                        medias.deep_view(),
                        i as int + 1,
                        medias@.len() as int,
                    );
                }
                return i;
            }
            i += 1;
        }
        i
    }

    /// The renditions that the option selects: the first one marked as the
    /// default (none where none is marked), the first, or all of them.
    pub fn filter_media<'a>(self, medias: &'a [AlternativeMedia]) -> (r: &'a [AlternativeMedia])
        ensures
            r@ == medias@.subrange(
                self.range(medias.deep_view()).0,
                self.range(medias.deep_view()).1,
            ),
            r.deep_view() == self.select(medias.deep_view()),
            0 <= self.range(medias.deep_view()).0 <= self.range(medias.deep_view()).1
                <= medias@.len(),
    {
        let r = match self {
            MediaSelect::Default => Self::default_media(medias),
            MediaSelect::First => Self::first_media(medias),
            MediaSelect::All => {
                assert(medias@.subrange(0, medias@.len() as int) =~= medias@);
                medias
            },
        };
        proof {
            lemma_first_default(medias.deep_view(), medias@.len() as int);
            assert(r.deep_view() =~= self.select(medias.deep_view()));
        }
        r
    }

    /// The first rendition that is marked as the default; none where none
    /// is marked.
    pub fn default_media<'a>(medias: &'a [AlternativeMedia]) -> (r: &'a [AlternativeMedia])
        ensures
            r@ == medias@.subrange(
                MediaSelect::Default.range(medias.deep_view()).0,
                MediaSelect::Default.range(medias.deep_view()).1,
            ),
            r@.len() == 0 <==> forall|j: int|
                0 <= j < medias@.len() ==> !(#[trigger] medias@[j]).default,
            r@.len() != 0 ==> ({
                let k = first_default(medias.deep_view(), medias@.len() as int);
                &&& r@.len() == 1
                &&& 0 <= k < medias@.len()
                &&& r@[0] == medias@[k]
                &&& r@[0].default
                &&& forall|j: int| 0 <= j < k ==> !(#[trigger] medias@[j]).default
            }),
    {
        proof {
            let models = medias.deep_view();
            lemma_first_default(models, medias@.len() as int);
            assert forall|j: int| 0 <= j < medias@.len() implies models[j].default == (
            #[trigger] medias@[j]).default by {}
        }
        let index = Self::default_index(medias);
        if index < medias.len() {
            slice_subrange(medias, index, index + 1)
        } else {
            slice_subrange(medias, 0, 0)
        }
    }

    /// The first rendition, or none of none.
    pub fn first_media<'a>(medias: &'a [AlternativeMedia]) -> (r: &'a [AlternativeMedia])
        ensures
            r@ == medias@.subrange(
                MediaSelect::First.range(medias.deep_view()).0,
                MediaSelect::First.range(medias.deep_view()).1,
            ),
            medias@.len() == 0 ==> r@.len() == 0,
            medias@.len() > 0 ==> r@.len() == 1 && r@[0] == medias@[0],
    {
        if medias.len() == 0 {
            slice_subrange(medias, 0, 0)
        } else {
            slice_subrange(medias, 0, 1)
        }
    }
}

/// `lowest_at` names a variant with the lowest bandwidth, and the first of
/// them.
pub proof fn lemma_lowest_at(variants: Seq<VariantStreamModel>, n: int)
    requires
        0 <= n <= variants.len(),
    ensures
        n > 0 ==> 0 <= lowest_at(variants, n) < n,
        forall|j: int|
            0 <= j < n ==> variants[lowest_at(variants, n)].bandwidth <= (
            #[trigger] variants[j]).bandwidth,
        forall|j: int|
            0 <= j < lowest_at(variants, n) ==> (#[trigger] variants[j]).bandwidth
                > variants[lowest_at(variants, n)].bandwidth,
    decreases n,
{
    if n > 1 {
        lemma_lowest_at(variants, n - 1);
    }
}

/// `highest_at` names a variant with the highest bandwidth, and the first of
/// them.
pub proof fn lemma_highest_at(variants: Seq<VariantStreamModel>, n: int)
    requires
        0 <= n <= variants.len(),
    ensures
        n > 0 ==> 0 <= highest_at(variants, n) < n,
        forall|j: int|
            0 <= j < n ==> variants[highest_at(variants, n)].bandwidth >= (
            #[trigger] variants[j]).bandwidth,
        forall|j: int|
            0 <= j < highest_at(variants, n) ==> (#[trigger] variants[j]).bandwidth
                < variants[highest_at(variants, n)].bandwidth,
    decreases n,
{
    if n > 1 {
        lemma_highest_at(variants, n - 1);
    }
}

/// `best_within` names a variant with the highest bandwidth among those
/// within the limit, and the first of them; it names none exactly where
/// every variant is above the limit.
pub proof fn lemma_best_within(variants: Seq<VariantStreamModel>, cap: u64, n: int)
    requires
        0 <= n <= variants.len(),
    ensures
        match best_within(variants, cap, n) {
            Some(k) => {
                &&& 0 <= k < n
                &&& variants[k].bandwidth <= cap
                &&& forall|j: int|
                    0 <= j < n && (#[trigger] variants[j]).bandwidth <= cap
                        ==> variants[j].bandwidth <= variants[k].bandwidth
                &&& forall|j: int|
                    0 <= j < k && (#[trigger] variants[j]).bandwidth <= cap
                        ==> variants[j].bandwidth < variants[k].bandwidth
            },
            None => forall|j: int| 0 <= j < n ==> (#[trigger] variants[j]).bandwidth > cap,
        },
    decreases n,
{
    if n > 0 {
        lemma_best_within(variants, cap, n - 1);
    }
}

/// `first_default` names the first rendition marked as the default.
pub proof fn lemma_first_default(medias: Seq<AlternativeMediaModel>, n: int)
    requires
        0 <= n <= medias.len(),
    ensures
        0 <= first_default(medias, n) <= n,
        first_default(medias, n) < n ==> medias[first_default(medias, n)].default,
        forall|j: int| 0 <= j < first_default(medias, n) ==> !(#[trigger] medias[j]).default,
    decreases n,
{
    if n > 0 {
        lemma_first_default(medias, n - 1);
    }
}

/// Once a default rendition is found among the first `n`, looking further
/// finds the same one.
pub proof fn lemma_first_default_stays(medias: Seq<AlternativeMediaModel>, n: int, m: int)
    requires
        0 <= n <= m <= medias.len(),
        first_default(medias, n) < n,
    ensures
        first_default(medias, m) == first_default(medias, n),
    decreases m - n,
{
    if n < m {
        lemma_first_default_stays(medias, n, m - 1);
    }
}

/// A bandwidth limit selects exactly one variant of a master playlist that
/// has any: one with the highest bandwidth among those within the limit,
/// or, where none is within it, one with the lowest bandwidth of all.
pub proof fn lemma_bandwidth_cap_selects_one(variants: Seq<VariantStreamModel>, cap: u64)
    requires
        variants.len() > 0,
    ensures
        ({
            let selected = VariantSelectOptions::Bandwidth(cap).select(variants);
            &&& selected.len() == 1
            &&& variants.contains(selected[0])
            &&& (exists|j: int| 0 <= j < variants.len() && (#[trigger] variants[j]).bandwidth <= cap)
                ==> selected[0].bandwidth <= cap && forall|j: int|
                0 <= j < variants.len() && (#[trigger] variants[j]).bandwidth <= cap
                    ==> variants[j].bandwidth <= selected[0].bandwidth
            &&& (forall|j: int| 0 <= j < variants.len() ==> (#[trigger] variants[j]).bandwidth > cap)
                ==> forall|j: int|
                0 <= j < variants.len() ==> selected[0].bandwidth <= (
                #[trigger] variants[j]).bandwidth
        }),
{
    let n = variants.len() as int;
    lemma_best_within(variants, cap, n);
    lemma_lowest_at(variants, n);
    let (a, b) = VariantSelectOptions::Bandwidth(cap).range(variants);
    assert(variants.subrange(a, b)[0] == variants[a]);
}

} // verus!
