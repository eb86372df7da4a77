//! The measurement engine: which encodings a request stands for, and the
//! report that measuring one file under them gives.

use vstd::prelude::*;
use crate::compress::{forecast, measure, measures, CodecError, Forecast, SizeMeasurement};
use crate::encoding::{canonical_order, Encoding};

verus! {

/// Which encodings to measure.
#[derive(Clone, Debug)]
pub enum Selection {
    /// Every encoding, in canonical order.
    All,
    /// The encodings named by the caller, in the caller's order. A name
    /// given more than once counts where it first stands.
    Listed(Vec<Encoding>),
}

/// The sizes measured for one file.
#[derive(Clone, Debug)]
pub struct FileReport {
    /// The name the file is shown under.
    pub name: String,
    /// One measurement per encoding, in the order the encodings were asked
    /// for.
    pub measurements: Vec<SizeMeasurement>,
}

/// A sequence with every repeated element removed, each element staying
/// where it first stood.
pub open spec fn first_occurrences(named: Seq<Encoding>) -> Seq<Encoding>
    decreases named.len(),
{
    if named.len() == 0 {
        Seq::<Encoding>::empty()
    } else {
        let before = first_occurrences(named.drop_last());
        if before.contains(named.last()) {
            before
        } else {
            before.push(named.last())
        }
    }
}

/// The encodings a selection stands for, in the order they are measured.
pub open spec fn effective_encodings(requested: Selection) -> Seq<Encoding> {
    match requested {
        Selection::All => canonical_order(),
        Selection::Listed(named) => first_occurrences(named@),
    }
}

/// The size that a run of measurements holds for `e`: that of the first
/// measurement taken under it, if there is one.
pub open spec fn size_under(measurements: Seq<SizeMeasurement>, e: Encoding) -> Option<usize>
    decreases measurements.len(),
{
    if measurements.len() == 0 {
        None
    } else if measurements[0].encoding == e {
        Some(measurements[0].size)
    } else {
        size_under(measurements.drop_first(), e)
    }
}

/// The encodings of a run of measurements, in order.
pub open spec fn encodings_of(measurements: Seq<SizeMeasurement>) -> Seq<Encoding> {
    Seq::new(measurements.len(), |i: int| measurements[i].encoding)
}

/// Whether no element stands twice in a sequence.
pub open spec fn distinct(list: Seq<Encoding>) -> bool {
    forall|i: int, j: int| 0 <= i < j < list.len() ==> list[i] != list[j]
}

/// Whether `measurements` are those of `buffer` under `encodings`, one for
/// one and in the same order.
pub open spec fn measured_under(
    measurements: Seq<SizeMeasurement>,
    buffer: Seq<u8>,
    encodings: Seq<Encoding>,
) -> bool {
    &&& measurements.len() == encodings.len()
    &&& forall|i: int|
        0 <= i < encodings.len() ==> measures(#[trigger] measurements[i], buffer, encodings[i])
}

impl FileReport {
    /// The encodings this report holds a size for, in order.
    pub open spec fn encodings(&self) -> Seq<Encoding> {
        encodings_of(self.measurements@)
    }

    /// A report is well formed when it measures no encoding twice.
    pub open spec fn wf(&self) -> bool {
        distinct(self.encodings())
    }

    /// The size this report holds for `e`, if it measured it.
    pub fn size_under(&self, e: Encoding) -> (size: Option<usize>)
        ensures
            size == size_under(self.measurements@, e),
    {
        let mut i: usize = 0;
        assert(self.measurements@.skip(0) =~= self.measurements@);
        while i < self.measurements.len()
            invariant
                i <= self.measurements.len(),
                size_under(self.measurements@, e) == size_under(
                    self.measurements@.skip(i as int),
                    e,
                ),
            decreases self.measurements.len() - i,
        {
            let rest = Ghost(self.measurements@.skip(i as int));
            assert(rest@[0] == self.measurements@[i as int]);
            assert(rest@.drop_first() =~= self.measurements@.skip(i + 1));
            if self.measurements[i].encoding == e {
                return Some(self.measurements[i].size);
            }
            i = i + 1;
        }
        None
    }
}

/// A size is held for an encoding exactly when some measurement was taken
/// under it.
pub proof fn lemma_size_under_some(measurements: Seq<SizeMeasurement>, e: Encoding)
    ensures
        size_under(measurements, e) is Some <==> encodings_of(measurements).contains(e),
    decreases measurements.len(),
{
    let encodings = encodings_of(measurements);
    if measurements.len() > 0 {
        let rest = measurements.drop_first();
        lemma_size_under_some(rest, e);
        if measurements[0].encoding == e {
            assert(encodings[0] == e);
        } else {
            if encodings.contains(e) {
                let i = choose|i: int| 0 <= i < encodings.len() && encodings[i] == e;
                assert(encodings_of(rest)[i - 1] == e);
            }
            if encodings_of(rest).contains(e) {
                let i = choose|i: int| 0 <= i < rest.len() && encodings_of(rest)[i] == e;
                assert(encodings[i + 1] == e);
            }
        }
    }
}

/// Removing repetitions leaves no element standing twice.
pub proof fn lemma_first_occurrences_distinct(named: Seq<Encoding>)
    ensures
        distinct(first_occurrences(named)),
    decreases named.len(),
{
    if named.len() > 0 {
        lemma_first_occurrences_distinct(named.drop_last());
    }
}

/// Removing repetitions neither loses an element nor invents one.
pub proof fn lemma_first_occurrences_same_elements(named: Seq<Encoding>, e: Encoding)
    ensures
        first_occurrences(named).contains(e) <==> named.contains(e),
    decreases named.len(),
{
    if named.len() > 0 {
        let init = named.drop_last();
        lemma_first_occurrences_same_elements(init, e);
        let before = first_occurrences(init);
        if named.contains(e) {
            let i = choose|i: int| 0 <= i < named.len() && named[i] == e;
            if i < init.len() {
                assert(init[i] == e);
            }
        }
        if init.contains(e) {
            let i = choose|i: int| 0 <= i < init.len() && init[i] == e;
            assert(named[i] == e);
        }
        if before.contains(named.last()) {
        } else {
            let kept = before.push(named.last());
            assert(kept[before.len() as int] == named.last());
            if before.contains(e) {
                let i = choose|i: int| 0 <= i < before.len() && before[i] == e;
                assert(kept[i] == e);
            }
        }
    }
}

/// Whether `at` is the place where `e` first stands in `list`.
pub open spec fn first_at(list: Seq<Encoding>, e: Encoding, at: int) -> bool {
    &&& 0 <= at < list.len()
    &&& list[at] == e
    &&& forall|k: int| 0 <= k < at ==> list[k] != e
}

/// Where an element first stands in a list without its last element, it
/// first stands in the whole list.
pub proof fn lemma_first_at_extends(list: Seq<Encoding>, e: Encoding, at: int)
    requires
        list.len() > 0,
        first_at(list.drop_last(), e, at),
    ensures
        first_at(list, e, at),
{
    let init = list.drop_last();
    assert(list[at] == init[at]);
    assert forall|k: int| 0 <= k < at implies list[k] != e by {
        assert(list[k] == init[k]);
    }
}

/// An element of a list has a place where it first stands.
pub proof fn lemma_has_first(list: Seq<Encoding>, e: Encoding)
    requires
        list.contains(e),
    ensures
        exists|at: int| first_at(list, e, at),
    decreases list.len(),
{
    let init = list.drop_last();
    let found = choose|i: int| 0 <= i < list.len() && list[i] == e;
    if exists|i: int| 0 <= i < init.len() && init[i] == e {
        lemma_has_first(init, e);
        let at = choose|at: int| first_at(init, e, at);
        lemma_first_at_extends(list, e, at);
    } else {
        let at = list.len() - 1;
        assert(first_at(list, e, at)) by {
            assert forall|k: int| 0 <= k < at implies list[k] != e by {
                assert(init[k] == list[k]);
            }
            if found < at {
                assert(init[found] == e);
            }
        }
    }
}

/// Removing repetitions keeps the order of first appearance: of two
/// elements that stay, the earlier one also first stands earlier in the
/// list they were taken from.
pub proof fn lemma_first_occurrences_ordered(named: Seq<Encoding>, a: int, b: int)
    requires
        0 <= a < b < first_occurrences(named).len(),
    ensures
        exists|i: int, j: int|
            i < j && first_at(named, first_occurrences(named)[a], i) && first_at(
                named,
                first_occurrences(named)[b],
                j,
            ),
    decreases named.len(),
{
    let kept = first_occurrences(named);
    let init = named.drop_last();
    let before = first_occurrences(init);
    assert(kept[a] == before[a]);
    if b < before.len() {
        lemma_first_occurrences_ordered(init, a, b);
        let (i, j) = choose|i: int, j: int|
            i < j && first_at(init, before[a], i) && first_at(init, before[b], j);
        assert(kept[b] == before[b]);
        lemma_first_at_extends(named, kept[a], i);
        lemma_first_at_extends(named, kept[b], j);
    } else {
        let j = named.len() - 1;
        assert(kept[b] == named.last());
        lemma_first_occurrences_same_elements(init, named.last());
        lemma_first_occurrences_same_elements(init, before[a]);
        assert(before.contains(before[a]));
        lemma_has_first(init, before[a]);
        let i = choose|i: int| first_at(init, before[a], i);
        lemma_first_at_extends(named, kept[a], i);
        assert(first_at(named, kept[b], j)) by {
            assert forall|k: int| 0 <= k < j implies named[k] != kept[b] by {
                if named[k] == kept[b] {
                    assert(init[k] == named.last());
                }
            }
        }
    }
}

/// A list that names nothing twice is its own effective selection.
pub proof fn lemma_first_occurrences_of_distinct(named: Seq<Encoding>)
    requires
        distinct(named),
    ensures
        first_occurrences(named) == named,
    decreases named.len(),
{
    if named.len() > 0 {
        let init = named.drop_last();
        lemma_first_occurrences_of_distinct(init);
        lemma_first_occurrences_same_elements(init, named.last());
        if init.contains(named.last()) {
            let i = choose|i: int| 0 <= i < init.len() && init[i] == named.last();
            assert(named[i] == named[named.len() - 1]);
        }
        assert(init.push(named.last()) =~= named);
    }
}

/// Naming every encoding in canonical order asks for the same as naming
/// none.
pub proof fn lemma_canonical_list_is_all(named: Vec<Encoding>)
    requires
        named@ == canonical_order(),
    ensures
        effective_encodings(Selection::Listed(named)) == effective_encodings(Selection::All),
{
    lemma_first_occurrences_of_distinct(named@);
}

/// Whether `list` holds `e`.
fn holds(list: &Vec<Encoding>, e: Encoding) -> (found: bool)
    ensures
        found == list@.contains(e),
{
    let mut i: usize = 0;
    while i < list.len()
        invariant
            i <= list.len(),
            forall|j: int| 0 <= j < i ==> list@[j] != e,
        decreases list.len() - i,
    {
        if list[i] == e {
            return true;
        }
        i = i + 1;
    }
    false
}

impl Selection {
    /// The encodings this selection stands for: all of them in canonical
    /// order, or the listed ones with repetitions removed.
    pub fn effective(&self) -> (list: Vec<Encoding>)
        ensures
            list@ == effective_encodings(*self),
            distinct(list@),
    {
        match self {
            Selection::All => Encoding::all(),
            Selection::Listed(named) => {
                let mut kept: Vec<Encoding> = Vec::new();
                let mut i: usize = 0;
                while i < named.len()
                    invariant
                        i <= named.len(),
                        kept@ == first_occurrences(named@.take(i as int)),
                    decreases named.len() - i,
                {
                    let e = named[i];
                    assert(named@.take(i + 1).drop_last() =~= named@.take(i as int));
                    if !holds(&kept, e) {
                        kept.push(e);
                    }
                    i = i + 1;
                }
                proof {
                    assert(named@.take(i as int) =~= named@);
                    lemma_first_occurrences_distinct(named@);
                }
                kept
            },
        }
    }
}

/// Whether measuring `buffer` is known beforehand to succeed under every
/// one of `encodings`.
pub open spec fn all_succeed(buffer: Seq<u8>, encodings: Seq<Encoding>) -> bool {
    forall|i: int| 0 <= i < encodings.len() ==> forecast(buffer, #[trigger] encodings[i]) is Size
}

/// Whether measuring `buffer` is known beforehand to fail under one of
/// `encodings`.
pub open spec fn one_fails(buffer: Seq<u8>, encodings: Seq<Encoding>) -> bool {
    exists|i: int| 0 <= i < encodings.len() && forecast(buffer, #[trigger] encodings[i]) is Failure
}

/// Whether a run over `encodings`, taken in order and ended by the first
/// failure, can end at place `at`: measuring is not known to succeed there,
/// and is not known to fail anywhere before.
pub open spec fn can_end_at(buffer: Seq<u8>, encodings: Seq<Encoding>, at: int) -> bool {
    &&& 0 <= at < encodings.len()
    &&& !(forecast(buffer, encodings[at]) is Size)
    &&& forall|j: int| 0 <= j < at ==> !(forecast(buffer, #[trigger] encodings[j]) is Failure)
}

/// Adds the outcome of one measurement to a run of measurements: a size is
/// appended under its encoding; a failure is handed back, and the run stays
/// as it was.
pub fn record(
    measurements: &mut Vec<SizeMeasurement>,
    encoding: Encoding,
    outcome: Result<usize, CodecError>,
) -> (step: Result<(), CodecError>)
    ensures
        match outcome {
            Ok(size) => step is Ok && final(measurements)@ == old(measurements)@.push(
                SizeMeasurement { encoding, size },
            ),
            Err(e) => step == Err::<(), CodecError>(e) && final(measurements)@ == old(
                measurements,
            )@,
        },
{
    match outcome {
        Ok(size) => {
            measurements.push(SizeMeasurement { encoding, size });
            Ok(())
        },
        Err(e) => Err(e),
    }
}

/// Measures one file under every encoding the selection stands for.
///
/// The report carries the file's name and one measurement per effective
/// encoding, in order. The first codec that fails ends the run, and its
/// failure is handed back unchanged. Where every outcome is known
/// beforehand, as it is without `Brotli`, this settles the result: a report
/// exactly if no encoding fails, else the failure of the first that does.
pub fn measure_file(name: &str, buffer: &[u8], requested: &Selection) -> (outcome: Result<
    FileReport,
    CodecError,
>)
    ensures
        all_succeed(buffer@, effective_encodings(*requested)) ==> outcome is Ok,
        one_fails(buffer@, effective_encodings(*requested)) ==> outcome is Err,
        outcome matches Ok(report) ==> {
            &&& report.name@ == name@
            &&& report.encodings() == effective_encodings(*requested)
            &&& measured_under(report.measurements@, buffer@, effective_encodings(*requested))
            &&& report.wf()
        },
        outcome matches Ok(report) ==> (*requested is All ==> report.encodings()
            == canonical_order()),
        outcome matches Err(e) ==> exists|at: int|
            can_end_at(buffer@, effective_encodings(*requested), at) && effective_encodings(
                *requested,
            )[at] == e.encoding,
{
    let encodings = requested.effective();
    let mut measurements: Vec<SizeMeasurement> = Vec::new();
    let mut i: usize = 0;
    while i < encodings.len()
        invariant
            i <= encodings.len(),
            encodings@ == effective_encodings(*requested),
            measured_under(measurements@, buffer@, encodings@.take(i as int)),
            forall|j: int| 0 <= j < i ==> !(forecast(buffer@, #[trigger] encodings@[j]) is Failure),
        decreases encodings.len() - i,
    {
        match record(&mut measurements, encodings[i], measure(buffer, encodings[i])) {
            Ok(()) => {},
            Err(e) => {
                assert(can_end_at(buffer@, encodings@, i as int));
                return Err(e);
            },
        }
        i = i + 1;
    }
    let report = FileReport { name: name.to_owned(), measurements };
    proof {
        assert(encodings@.take(i as int) =~= encodings@);
        assert(report.encodings() =~= encodings@);
    }
    Ok(report)
}

/// Without `Brotli` the measurements of a buffer are settled by the buffer
/// and the encodings: whatever was measured before or between, two runs
/// that succeed hold the same measurements.
pub proof fn lemma_runs_repeatable(
    buffer: Seq<u8>,
    encodings: Seq<Encoding>,
    first: Seq<SizeMeasurement>,
    second: Seq<SizeMeasurement>,
)
    requires
        !encodings.contains(Encoding::Brotli),
        measured_under(first, buffer, encodings),
        measured_under(second, buffer, encodings),
    ensures
        first == second,
{
    assert forall|i: int| 0 <= i < encodings.len() implies first[i] == second[i] by {
        assert(encodings[i] != Encoding::Brotli);
        assert(measures(first[i], buffer, encodings[i]));
        assert(measures(second[i], buffer, encodings[i]));
    }
    assert(first =~= second);
}

/// Without `Brotli` a run can end in one place only: at the first encoding
/// that fails.
pub proof fn lemma_end_is_first_failure(buffer: Seq<u8>, encodings: Seq<Encoding>, at: int)
    requires
        !encodings.contains(Encoding::Brotli),
        can_end_at(buffer, encodings, at),
    ensures
        forecast(buffer, encodings[at]) is Failure,
        forall|j: int| 0 <= j < at ==> forecast(buffer, #[trigger] encodings[j]) is Size,
{
    assert(encodings[at] != Encoding::Brotli);
    assert forall|j: int| 0 <= j < at implies forecast(buffer, #[trigger] encodings[j]) is Size by {
        assert(encodings[j] != Encoding::Brotli);
    }
}

} // verus!
