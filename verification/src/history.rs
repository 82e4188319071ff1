//! Bounded histories of samples: each keeps the newest `MAX_POINTS` samples.
use vstd::prelude::*;
use vstd::pervasive::VecAdditionalExecFns;

verus! {

/// The most samples that a history keeps.
pub const MAX_POINTS: usize = 80;

/// A history after `sample` is added: the oldest sample is dropped first when
/// the history already holds `MAX_POINTS` samples or more.
pub open spec fn pushed<T>(history: Seq<T>, sample: T) -> Seq<T> {
    if history.len() >= MAX_POINTS {
        history.drop_first().push(sample)
    } else {
        history.push(sample)
    }
}

/// The history that `samples`, added one by one to an empty history, leave.
pub open spec fn history_of<T>(samples: Seq<T>) -> Seq<T>
    decreases samples.len(),
{
    if samples.len() == 0 {
        Seq::empty()
    } else {
        pushed(history_of(samples.drop_last()), samples.last())
    }
}

/// Adds `sample` to `history`.
pub fn push_sample<T>(history: &mut Vec<T>, sample: T)
    ensures
        final(history)@ == pushed(old(history)@, sample),
{
    if history.len() >= MAX_POINTS {
        history.remove(0);
    }
    history.push(sample);
}

/// The histories of a set of series after one round of samples, one per series:
/// when the number of series has changed, every history starts over empty.
pub open spec fn recorded<T>(histories: Seq<Seq<T>>, samples: Seq<T>) -> Seq<Seq<T>> {
    Seq::new(
        samples.len(),
        |i: int|
            pushed(
                if histories.len() == samples.len() {
                    histories[i]
                } else {
                    Seq::empty()
                },
                samples[i],
            ),
    )
}

/// The histories of a set of series, each taken as a sequence.
pub open spec fn histories_view<T>(h: Seq<Vec<T>>) -> Seq<Seq<T>> {
    h.map_values(|v: Vec<T>| v@)
}

/// Adds one round of samples to the histories of a set of series.
pub fn record_series<T: Copy>(histories: &mut Vec<Vec<T>>, samples: &Vec<T>)
    ensures
        histories_view(final(histories)@) == recorded(histories_view(old(histories)@), samples@),
{
    let n = samples.len();
    if histories.len() != n {
        let mut fresh: Vec<Vec<T>> = Vec::new();
        for k in 0..n
            invariant
                fresh@.len() == k,
                forall|j: int| 0 <= j < k ==> (#[trigger] fresh@[j])@ == Seq::<T>::empty(),
        {
            fresh.push(Vec::new());
        }
        *histories = fresh;
    }
    let ghost base = histories_view(histories@);
    assert(forall|j: int|
        0 <= j < n ==> #[trigger] base[j] == (if histories_view(old(histories)@).len() == n {
            histories_view(old(histories)@)[j]
        } else {
            Seq::<T>::empty()
        }));
    for i in 0..n
        invariant
            histories@.len() == n,
            n == samples.len(),
            base.len() == n,
            forall|j: int| 0 <= j < i ==> (#[trigger] histories@[j])@ == pushed(base[j], samples@[j]),
            forall|j: int| i <= j < n ==> (#[trigger] histories@[j])@ == base[j],
    {
        let mut h: Vec<T> = Vec::new();
        histories.set_and_swap(i, &mut h);
        push_sample(&mut h, samples[i]);
        histories.set(i, h);
    }
    assert(histories_view(histories@) =~= recorded(histories_view(old(histories)@), samples@));
}

/// One round of samples gives one history per sample. Where the number of
/// series changed, each history holds just its new sample. Otherwise each
/// history (holding no more than `MAX_POINTS`) gains its sample at the end and
/// keeps its newest earlier samples, as many as fit in `MAX_POINTS`.
pub proof fn lemma_recorded_series<T>(histories: Seq<Seq<T>>, samples: Seq<T>)
    ensures
        recorded(histories, samples).len() == samples.len(),
        histories.len() != samples.len() ==> forall|i: int|
            0 <= i < samples.len() ==> #[trigger] recorded(histories, samples)[i] == seq![samples[i]],
        histories.len() == samples.len() ==> forall|i: int|
            0 <= i < samples.len() && histories[i].len() <= MAX_POINTS ==> {
                let r = #[trigger] recorded(histories, samples)[i];
                let old = histories[i];
                let kept = r.len() - 1;
                &&& r.len() == (if old.len() < MAX_POINTS {
                    old.len() + 1int
                } else {
                    MAX_POINTS as int
                })
                &&& r.last() == samples[i]
                &&& r.drop_last() == old.subrange(old.len() - kept, old.len() as int)
            },
{
    let r = recorded(histories, samples);
    if histories.len() != samples.len() {
        assert forall|i: int| 0 <= i < samples.len() implies #[trigger] r[i] == seq![samples[i]] by {
            assert(r[i] =~= seq![samples[i]]);
        }
    } else {
        assert forall|i: int| 0 <= i < samples.len() && histories[i].len() <= MAX_POINTS implies {
            let r = #[trigger] recorded(histories, samples)[i];
            let old = histories[i];
            let kept = r.len() - 1;
            &&& r.len() == (if old.len() < MAX_POINTS {
                old.len() + 1int
            } else {
                MAX_POINTS as int
            })
            &&& r.last() == samples[i]
            &&& r.drop_last() == old.subrange(old.len() - kept, old.len() as int)
        } by {
            let old = histories[i];
            let ri = r[i];
            assert(ri.drop_last() =~= old.subrange(old.len() - (ri.len() - 1), old.len() as int));
        }
    }
}

/// A history never holds more than `MAX_POINTS` samples once it holds no more than that.
pub proof fn lemma_pushed_bounded<T>(history: Seq<T>, sample: T)
    requires
        history.len() <= MAX_POINTS,
    ensures
        pushed(history, sample).len() <= MAX_POINTS,
        pushed(history, sample).last() == sample,
{
}

/// A history filled sample by sample holds exactly the newest `MAX_POINTS`
/// samples (all of them, while there are fewer), oldest first.
pub proof fn lemma_history_keeps_newest<T>(samples: Seq<T>)
    ensures
        history_of(samples) == samples.subrange(
            if samples.len() > MAX_POINTS {
                samples.len() - MAX_POINTS
            } else {
                0
            },
            samples.len() as int,
        ),
    decreases samples.len(),
{
    if samples.len() > 0 {
        let prev = samples.drop_last();
        lemma_history_keeps_newest(prev);
        let start = if samples.len() > MAX_POINTS {
            samples.len() - MAX_POINTS
        } else {
            0
        };
        assert(history_of(samples) =~= samples.subrange(start, samples.len() as int));
    }
}

} // verus!
