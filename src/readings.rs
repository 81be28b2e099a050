//! The sensor forest as plain values (chips, their features, and the
//! features' sub-features), and the selection of the temperature-input
//! sub-features whose readings are averaged.
//!
//! Each sub-feature carries a handle of the caller's choosing: the reading
//! itself, or a way to fetch it.

use crate::config::{name_listed, NameFilter};
use vstd::prelude::*;

verus! {

/// The category of a feature; only temperature features are averaged.
#[derive(Clone, Copy, Debug, PartialEq, Eq, Structural)]
pub enum FeatureKind {
    Temperature,
    Other,
}

/// The category of a sub-feature; of a temperature feature only the input
/// facet is averaged, never its thresholds.
#[derive(Clone, Copy, Debug, PartialEq, Eq, Structural)]
pub enum SubfeatureKind {
    TemperatureInput,
    Other,
}

pub struct Subfeature<T> {
    pub kind: SubfeatureKind,
    pub handle: T,
}

pub struct Feature<T> {
    pub kind: FeatureKind,
    pub subfeatures: Vec<Subfeature<T>>,
}

pub struct Chip<T> {
    /// `None` where the chip's name cannot be resolved.
    pub name: Option<String>,
    pub features: Vec<Feature<T>>,
}

/// The handles of the temperature-input sub-features among `subs`, in order.
pub open spec fn inputs_of_subfeatures<T>(subs: Seq<Subfeature<T>>) -> Seq<T>
    decreases subs.len(),
{
    if subs.len() == 0 {
        Seq::empty()
    } else {
        let rest = inputs_of_subfeatures(subs.drop_last());
        if subs.last().kind == SubfeatureKind::TemperatureInput {
            rest.push(subs.last().handle)
        } else {
            rest
        }
    }
}

/// What one feature contributes: its inputs if it is a temperature feature.
pub open spec fn inputs_of_feature<T>(f: Feature<T>) -> Seq<T> {
    if f.kind == FeatureKind::Temperature {
        inputs_of_subfeatures(f.subfeatures@)
    } else {
        Seq::empty()
    }
}

pub open spec fn inputs_of_features<T>(fs: Seq<Feature<T>>) -> Seq<T>
    decreases fs.len(),
{
    if fs.len() == 0 {
        Seq::empty()
    } else {
        inputs_of_features(fs.drop_last()) + inputs_of_feature(fs.last())
    }
}

/// Whether a chip is kept: it has a name, and the filter allows that name.
pub open spec fn chip_kept(name: Option<String>, filter: NameFilter) -> bool {
    match name {
        Some(n) => filter.allows(n@),
        None => false,
    }
}

/// What one chip contributes: the inputs of its features if it is kept.
pub open spec fn inputs_of_chip<T>(c: Chip<T>, filter: NameFilter) -> Seq<T> {
    if chip_kept(c.name, filter) {
        inputs_of_features(c.features@)
    } else {
        Seq::empty()
    }
}

/// The handles of every temperature-input sub-feature of every temperature
/// feature of every kept chip, chip by chip, in order.
pub open spec fn inputs_of_chips<T>(cs: Seq<Chip<T>>, filter: NameFilter) -> Seq<T>
    decreases cs.len(),
{
    if cs.len() == 0 {
        Seq::empty()
    } else {
        inputs_of_chips(cs.drop_last(), filter) + inputs_of_chip(cs.last(), filter)
    }
}

/// Whether the chip is kept by the name filter.
pub fn filter_chips<T>(chip: &Chip<T>, filter: &NameFilter) -> (r: bool)
    ensures
        r == chip_kept(chip.name, *filter),
{
    match &chip.name {
        Some(n) => filter.allows_name(n),
        None => false,
    }
}

/// Whether the feature is a temperature feature.
pub fn filter_features<T>(feature: &Feature<T>) -> (r: bool)
    ensures
        r == (feature.kind == FeatureKind::Temperature),
{
    feature.kind == FeatureKind::Temperature
}

/// Whether the sub-feature is a temperature input.
pub fn filter_subfeatures<T>(subfeature: &Subfeature<T>) -> (r: bool)
    ensures
        r == (subfeature.kind == SubfeatureKind::TemperatureInput),
{
    subfeature.kind == SubfeatureKind::TemperatureInput
}

/// The handles of the temperature inputs of one feature, whatever its kind.
fn feature_inputs<T: Copy>(feature: &Feature<T>) -> (r: Vec<T>)
    ensures
        r@ == inputs_of_subfeatures(feature.subfeatures@),
{
    let mut r: Vec<T> = Vec::new();
    let mut k: usize = 0;
    while k < feature.subfeatures.len()
        invariant
            k <= feature.subfeatures@.len(),
            r@ == inputs_of_subfeatures(feature.subfeatures@.subrange(0, k as int)),
        decreases feature.subfeatures@.len() - k,
    {
        let sub = &feature.subfeatures[k];
        proof {
            let next = feature.subfeatures@.subrange(0, k + 1);
            assert(next.drop_last() =~= feature.subfeatures@.subrange(0, k as int));
        }
        if filter_subfeatures(sub) {
            r.push(sub.handle);
        }
        k = k + 1;
    }
    proof {
        assert(feature.subfeatures@.subrange(0, k as int) =~= feature.subfeatures@);
    }
    r
}

/// The handles of the temperature inputs of one chip, whatever its name.
fn chip_inputs<T: Copy>(chip: &Chip<T>) -> (r: Vec<T>)
    ensures
        r@ == inputs_of_features(chip.features@),
{
    let mut r: Vec<T> = Vec::new();
    let mut j: usize = 0;
    while j < chip.features.len()
        invariant
            j <= chip.features@.len(),
            r@ == inputs_of_features(chip.features@.subrange(0, j as int)),
        decreases chip.features@.len() - j,
    {
        let feature = &chip.features[j];
        proof {
            let next = chip.features@.subrange(0, j + 1);
            assert(next.drop_last() =~= chip.features@.subrange(0, j as int));
        }
        if filter_features(feature) {
            let mut more = feature_inputs(feature);
            r.append(&mut more);
        }
        j = j + 1;
    }
    proof {
        assert(chip.features@.subrange(0, j as int) =~= chip.features@);
    }
    r
}

/// The handles of the temperature-input sub-features of the temperature
/// features of the chips that the filter keeps, in the order of the forest.
/// A chip without a resolvable name is never kept.
pub fn temperature_inputs<T: Copy>(chips: &Vec<Chip<T>>, filter: &NameFilter) -> (r: Vec<T>)
    ensures
        r@ == inputs_of_chips(chips@, *filter),
{
    let mut r: Vec<T> = Vec::new();
    let mut i: usize = 0;
    while i < chips.len()
        invariant
            i <= chips@.len(),
            r@ == inputs_of_chips(chips@.subrange(0, i as int), *filter),
        decreases chips@.len() - i,
    {
        let chip = &chips[i];
        proof {
            let next = chips@.subrange(0, i + 1);
            assert(next.drop_last() =~= chips@.subrange(0, i as int));
        }
        if filter_chips(chip, filter) {
            let mut more = chip_inputs(chip);
            r.append(&mut more);
        }
        i = i + 1;
    }
    proof {
        assert(chips@.subrange(0, i as int) =~= chips@);
    }
    r
}

/// The values of the reads that succeeded, in order; a failed read
/// contributes nothing.
pub open spec fn successes<T>(reads: Seq<Option<T>>) -> Seq<T>
    decreases reads.len(),
{
    if reads.len() == 0 {
        Seq::empty()
    } else {
        let rest = successes(reads.drop_last());
        match reads.last() {
            Some(v) => rest.push(v),
            None => rest,
        }
    }
}

/// Keeps the values of the reads that succeeded, in order.
pub fn successful_reads<T: Copy>(reads: &Vec<Option<T>>) -> (r: Vec<T>)
    ensures
        r@ == successes(reads@),
{
    let mut r: Vec<T> = Vec::new();
    let mut i: usize = 0;
    while i < reads.len()
        invariant
            i <= reads@.len(),
            r@ == successes(reads@.subrange(0, i as int)),
        decreases reads@.len() - i,
    {
        proof {
            let next = reads@.subrange(0, i + 1);
            assert(next.drop_last() =~= reads@.subrange(0, i as int));
        }
        if let Some(v) = reads[i] {
            r.push(v);
        }
        i = i + 1;
    }
    proof {
        assert(reads@.subrange(0, i as int) =~= reads@);
    }
    r
}

/// A chip offers a candidate at feature `j`, sub-feature `k` when that
/// feature is a temperature feature and that sub-feature its input.
pub open spec fn has_candidate<T>(c: Chip<T>, j: int, k: int) -> bool {
    0 <= j < c.features@.len() && c.features@[j].kind == FeatureKind::Temperature && 0 <= k
        < c.features@[j].subfeatures@.len() && c.features@[j].subfeatures@[k].kind
        == SubfeatureKind::TemperatureInput
}

proof fn lemma_subfeatures_empty<T>(subs: Seq<Subfeature<T>>)
    ensures
        inputs_of_subfeatures(subs).len() == 0 <==> forall|k: int|
            0 <= k < subs.len() ==> (#[trigger] subs[k]).kind != SubfeatureKind::TemperatureInput,
    decreases subs.len(),
{
    if subs.len() > 0 {
        lemma_subfeatures_empty(subs.drop_last());
        if inputs_of_subfeatures(subs).len() == 0 {
            assert forall|k: int| 0 <= k < subs.len() implies (#[trigger] subs[k]).kind
                != SubfeatureKind::TemperatureInput by {
                if k < subs.len() - 1 {
                    assert(subs[k] == subs.drop_last()[k]);
                }
            }
        } else {
            if subs.last().kind != SubfeatureKind::TemperatureInput {
                let k = choose|k: int|
                    0 <= k < subs.len() - 1 && (#[trigger] subs.drop_last()[k]).kind
                        == SubfeatureKind::TemperatureInput;
                assert(subs[k] == subs.drop_last()[k]);
            }
        }
    }
}

proof fn lemma_features_empty<T>(fs: Seq<Feature<T>>)
    ensures
        inputs_of_features(fs).len() == 0 <==> forall|j: int, k: int|
            0 <= j < fs.len() && (#[trigger] fs[j]).kind == FeatureKind::Temperature && 0 <= k
                < fs[j].subfeatures@.len() ==> (#[trigger] fs[j].subfeatures@[k]).kind
                != SubfeatureKind::TemperatureInput,
    decreases fs.len(),
{
    if fs.len() > 0 {
        let init = fs.drop_last();
        lemma_features_empty(init);
        lemma_subfeatures_empty(fs.last().subfeatures@);
        if inputs_of_features(fs).len() == 0 {
            assert forall|j: int, k: int|
                0 <= j < fs.len() && (#[trigger] fs[j]).kind == FeatureKind::Temperature && 0 <= k
                    < fs[j].subfeatures@.len() implies (#[trigger] fs[j].subfeatures@[k]).kind
                != SubfeatureKind::TemperatureInput by {
                if j < fs.len() - 1 {
                    assert(fs[j] == init[j]);
                }
            }
        } else {
            if inputs_of_features(init).len() > 0 {
                let (j, k) = choose|j: int, k: int|
                    0 <= j < init.len() && (#[trigger] init[j]).kind == FeatureKind::Temperature
                        && 0 <= k < init[j].subfeatures@.len() && (#[trigger] init[j].subfeatures@[
                        k]).kind == SubfeatureKind::TemperatureInput;
                assert(fs[j] == init[j]);
            } else {
                let k = choose|k: int|
                    0 <= k < fs.last().subfeatures@.len() && (#[trigger] fs.last().subfeatures@[
                        k]).kind == SubfeatureKind::TemperatureInput;
                assert(fs[fs.len() - 1] == fs.last());
            }
        }
    }
}

/// Nothing is selected exactly when no kept chip offers a candidate: in
/// particular when the filter keeps no chip, and when no kept chip has a
/// temperature feature with an input sub-feature.
pub proof fn lemma_nothing_selected<T>(cs: Seq<Chip<T>>, filter: NameFilter)
    ensures
        inputs_of_chips(cs, filter).len() == 0 <==> forall|i: int, j: int, k: int|
            0 <= i < cs.len() && chip_kept(cs[i].name, filter) ==> !#[trigger] has_candidate(
                cs[i],
                j,
                k,
            ),
    decreases cs.len(),
{
    if cs.len() > 0 {
        let init = cs.drop_last();
        lemma_nothing_selected(init, filter);
        lemma_features_empty(cs.last().features@);
        if inputs_of_chips(cs, filter).len() == 0 {
            assert forall|i: int, j: int, k: int|
                0 <= i < cs.len() && chip_kept(cs[i].name, filter) implies !#[trigger] has_candidate(
                cs[i],
                j,
                k,
            ) by {
                if i < cs.len() - 1 {
                    assert(cs[i] == init[i]);
                } else {
                    assert(cs[i] == cs.last());
                    if has_candidate(cs[i], j, k) {
                        let f = cs.last().features@[j];
                        assert(f.subfeatures@[k].kind == SubfeatureKind::TemperatureInput);
                    }
                }
            }
        } else {
            if inputs_of_chips(init, filter).len() > 0 {
                let (i, j, k) = choose|i: int, j: int, k: int|
                    0 <= i < init.len() && chip_kept(init[i].name, filter)
                        && #[trigger] has_candidate(init[i], j, k);
                assert(cs[i] == init[i]);
            } else {
                let c = cs.last();
                let (j, k) = choose|j: int, k: int|
                    0 <= j < c.features@.len() && (#[trigger] c.features@[j]).kind
                        == FeatureKind::Temperature && 0 <= k < c.features@[j].subfeatures@.len()
                        && (#[trigger] c.features@[j].subfeatures@[k]).kind
                        == SubfeatureKind::TemperatureInput;
                assert(cs[cs.len() - 1] == c);
                assert(has_candidate(cs[cs.len() - 1], j, k));
            }
        }
    }
}

/// When every read fails, no value remains to be averaged.
pub proof fn lemma_all_reads_failed<T>(reads: Seq<Option<T>>)
    requires
        forall|i: int| 0 <= i < reads.len() ==> (#[trigger] reads[i]) is None,
    ensures
        successes(reads).len() == 0,
    decreases reads.len(),
{
    if reads.len() > 0 {
        let init = reads.drop_last();
        assert forall|i: int| 0 <= i < init.len() implies (#[trigger] init[i]) is None by {
            assert(init[i] == reads[i]);
        }
        lemma_all_reads_failed(init);
        assert(reads[reads.len() - 1] is None);
    }
}

/// Two allow-lists that list the same names select the same readings: the
/// order of the entries and their repetitions do not matter.
pub proof fn lemma_same_names_same_selection<T>(cs: Seq<Chip<T>>, a: Vec<String>, b: Vec<String>)
    requires
        forall|n: Seq<char>| name_listed(a@, n) <==> name_listed(b@, n),
    ensures
        inputs_of_chips(cs, NameFilter::Only(a)) == inputs_of_chips(cs, NameFilter::Only(b)),
    decreases cs.len(),
{
    if cs.len() > 0 {
        lemma_same_names_same_selection(cs.drop_last(), a, b);
        match cs.last().name {
            Some(n) => {
                assert(name_listed(a@, n@) == name_listed(b@, n@));
            },
            None => {},
        }
    }
}

/// A chip whose name cannot be resolved adds nothing to the selection,
/// whatever the filter, the absent one included.
pub proof fn lemma_nameless_chip_excluded<T>(cs: Seq<Chip<T>>, c: Chip<T>, filter: NameFilter)
    requires
        c.name is None,
    ensures
        inputs_of_chips(cs.push(c), filter) == inputs_of_chips(cs, filter),
{
    assert(cs.push(c).drop_last() =~= cs);
    assert(inputs_of_chip(c, filter) =~= Seq::<T>::empty());
    assert(inputs_of_chips(cs, filter) + Seq::<T>::empty() =~= inputs_of_chips(cs, filter));
}

} // verus!
