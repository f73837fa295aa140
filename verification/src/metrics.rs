//! The quality of a model's classifications.
use crate::number::{hundred, hundred_spec, zero, zero_spec, Number};
use crate::text::{digits, joined, joined3, joined4, joined5, joined6, show_count};
use crate::train::{item_models, ItemModel, PreparedData, PriceOutcome, SeriesItem, OUTCOME_COUNT};
use vstd::prelude::*;

verus! {

/// A count for each outcome.
#[derive(Clone, Copy, Debug, PartialEq, Eq, Structural)]
pub struct OutcomeCounts {
    pub lower_first: usize,
    pub upper_first: usize,
    pub neither: usize,
}

impl OutcomeCounts {
    /// The count of an outcome.
    pub open spec fn of(self, outcome: PriceOutcome) -> usize {
        match outcome {
            PriceOutcome::LowerFirst => self.lower_first,
            PriceOutcome::UpperFirst => self.upper_first,
            PriceOutcome::Neither => self.neither,
        }
    }

    /// The count of all outcomes.
    pub open spec fn all(self) -> int {
        self.lower_first + self.upper_first + self.neither
    }

    /// The counts after an outcome has occurred once more.
    pub open spec fn with(self, outcome: PriceOutcome) -> OutcomeCounts {
        match outcome {
            PriceOutcome::LowerFirst => OutcomeCounts {
                lower_first: (self.lower_first + 1) as usize,
                ..self
            },
            PriceOutcome::UpperFirst => OutcomeCounts {
                upper_first: (self.upper_first + 1) as usize,
                ..self
            },
            PriceOutcome::Neither => OutcomeCounts {
                neither: (self.neither + 1) as usize,
                ..self
            },
        }
    }

    /// No outcome has occurred.
    pub open spec fn empty() -> OutcomeCounts {
        OutcomeCounts { lower_first: 0, upper_first: 0, neither: 0 }
    }

    /// No outcome has occurred.
    pub fn none() -> (result: OutcomeCounts)
        ensures
            result == OutcomeCounts::empty(),
    {
        OutcomeCounts { lower_first: 0, upper_first: 0, neither: 0 }
    }

    /// The count of an outcome.
    pub fn get(&self, outcome: PriceOutcome) -> (result: usize)
        ensures
            result == self.of(outcome),
    {
        match outcome {
            PriceOutcome::LowerFirst => self.lower_first,
            PriceOutcome::UpperFirst => self.upper_first,
            PriceOutcome::Neither => self.neither,
        }
    }

    /// Count one occurrence of an outcome.
    pub fn add(&mut self, outcome: PriceOutcome)
        requires
            old(self).of(outcome) < usize::MAX,
        ensures
            *final(self) == old(self).with(outcome),
            final(self).all() == old(self).all() + 1,
    {
        match outcome {
            PriceOutcome::LowerFirst => {
                self.lower_first = self.lower_first + 1;
            },
            PriceOutcome::UpperFirst => {
                self.upper_first = self.upper_first + 1;
            },
            PriceOutcome::Neither => {
                self.neither = self.neither + 1;
            },
        }
    }
}

// Predictions

/// The class with the largest of some logits, and the last of those that share it.
pub open spec fn largest<N: Number>(logits: Seq<N>) -> int
    decreases logits.len(),
{
    if logits.len() <= 1 {
        0
    } else {
        let earlier = largest(logits.drop_last());
        if logits.last().total_below_spec(logits[earlier]) {
            earlier
        } else {
            logits.len() - 1
        }
    }
}

/// The outcome with an index.
pub open spec fn outcome_at(class: int) -> PriceOutcome {
    if class == 0 {
        PriceOutcome::LowerFirst
    } else if class == 1 {
        PriceOutcome::UpperFirst
    } else {
        PriceOutcome::Neither
    }
}

/// The outcome with an index.
fn outcome_with_index(class: i32) -> (result: PriceOutcome)
    requires
        0 <= class < 3,
    ensures
        result == outcome_at(class as int),
        result.class() == class,
{
    match class {
        0 => PriceOutcome::LowerFirst,
        1 => PriceOutcome::UpperFirst,
        _ => PriceOutcome::Neither,
    }
}

/// The outcome that three logits predict.
pub open spec fn predicted<N: Number>(logits: Seq<N>) -> PriceOutcome {
    outcome_at(largest(logits))
}

/// Predict an outcome from the three logits that begin at a place.
fn predict_at<N: Number>(logits: &Vec<N>, start: usize) -> (result: PriceOutcome)
    requires
        start + 3 <= logits.len(),
    ensures
        result == predicted(logits@.subrange(start as int, start + 3)),
{
    let ghost group = logits@.subrange(start as int, start + 3);
    proof {
        reveal_with_fuel(largest, 3);
        assert(group.drop_last() =~= seq![group[0], group[1]]);
        assert(group.drop_last().drop_last() =~= seq![group[0]]);
    }
    let (lower, upper, neither) = (logits[start], logits[start + 1], logits[start + 2]);
    if upper.total_below(lower) {
        if neither.total_below(lower) {
            PriceOutcome::LowerFirst
        } else {
            PriceOutcome::Neither
        }
    } else if neither.total_below(upper) {
        PriceOutcome::UpperFirst
    } else {
        PriceOutcome::Neither
    }
}

// Metrics

/// Counts of multiclass predictions, and the loss.
pub struct ClassificationMetrics<N> {
    pub loss: N,
    pub correct: usize,
    pub total: usize,
    pub true_positives: OutcomeCounts,
    pub predicted_positives: OutcomeCounts,
    pub actual_positives: OutcomeCounts,
}

/// The metrics of no classification.
pub open spec fn empty_metrics<N: Number>() -> ClassificationMetrics<N> {
    ClassificationMetrics {
        loss: zero_spec(),
        correct: 0,
        total: 0,
        true_positives: OutcomeCounts::empty(),
        predicted_positives: OutcomeCounts::empty(),
        actual_positives: OutcomeCounts::empty(),
    }
}

impl<N: Number> ClassificationMetrics<N> {
    /// Whether the counts agree: each classification is one prediction and one label, and a
    /// correct one is a true positive of both.
    pub open spec fn consistent(self) -> bool {
        &&& self.predicted_positives.all() == self.total
        &&& self.actual_positives.all() == self.total
        &&& self.true_positives.all() == self.correct
        &&& self.true_positives.lower_first <= self.predicted_positives.lower_first
        &&& self.true_positives.upper_first <= self.predicted_positives.upper_first
        &&& self.true_positives.neither <= self.predicted_positives.neither
        &&& self.true_positives.lower_first <= self.actual_positives.lower_first
        &&& self.true_positives.upper_first <= self.actual_positives.upper_first
        &&& self.true_positives.neither <= self.actual_positives.neither
    }

    /// The metrics after one more classification.
    pub open spec fn counted(self, prediction: PriceOutcome, target: PriceOutcome) -> Self {
        ClassificationMetrics {
            loss: self.loss,
            correct: if prediction == target {
                (self.correct + 1) as usize
            } else {
                self.correct
            },
            total: (self.total + 1) as usize,
            true_positives: if prediction == target {
                self.true_positives.with(target)
            } else {
                self.true_positives
            },
            predicted_positives: self.predicted_positives.with(prediction),
            actual_positives: self.actual_positives.with(target),
        }
    }

    /// The metrics after some classifications: of as many targets as have a group of logits.
    pub open spec fn counted_all(self, logits: Seq<N>, targets: Seq<i32>, count: int) -> Self
        decreases count,
    {
        if count <= 0 {
            self
        } else {
            self.counted_all(logits, targets, count - 1).counted(
                predicted(logits.subrange((count - 1) * 3, count * 3)),
                outcome_at(targets[count - 1] as int),
            )
        }
    }

    /// The metrics of no classification.
    pub fn empty() -> (result: Self)
        ensures
            result == empty_metrics::<N>(),
            result.consistent(),
    {
        ClassificationMetrics {
            loss: zero(),
            correct: 0,
            total: 0,
            true_positives: OutcomeCounts::none(),
            predicted_positives: OutcomeCounts::none(),
            actual_positives: OutcomeCounts::none(),
        }
    }

    /// Count one classification.
    pub fn record(&mut self, prediction: PriceOutcome, target: PriceOutcome)
        requires
            old(self).consistent(),
            old(self).total < usize::MAX,
        ensures
            *final(self) == old(self).counted(prediction, target),
            final(self).consistent(),
            final(self).total == old(self).total + 1,
    {
        if prediction == target {
            self.correct = self.correct + 1;
            self.true_positives.add(target);
        }
        self.predicted_positives.add(prediction);
        self.actual_positives.add(target);
        self.total = self.total + 1;
    }

    /// The share of labels classified correctly.
    pub open spec fn accuracy_spec(self) -> N {
        N::count_spec(self.correct as nat).over_spec(N::count_spec(self.total as nat))
    }

    /// The share of predictions of an outcome that are right, or zero if there are none.
    pub open spec fn precision_spec(self, outcome: PriceOutcome) -> N {
        share_of(self.true_positives.of(outcome), self.predicted_positives.of(outcome))
    }

    /// The share of occurrences of an outcome that are predicted, or zero if there are none.
    pub open spec fn recall_spec(self, outcome: PriceOutcome) -> N {
        share_of(self.true_positives.of(outcome), self.actual_positives.of(outcome))
    }

    /// Calculate the share of labels classified correctly.
    pub fn accuracy(&self) -> (result: N)
        ensures
            result == self.accuracy_spec(),
    {
        N::count(self.correct).over(N::count(self.total))
    }

    /// Calculate positive predictive value, defining an empty prediction set as zero.
    pub fn precision(&self, outcome: PriceOutcome) -> (result: N)
        ensures
            result == self.precision_spec(outcome),
    {
        share(self.true_positives.get(outcome), self.predicted_positives.get(outcome))
    }

    /// Calculate the share of actual positives detected, defining an empty class as zero.
    pub fn recall(&self, outcome: PriceOutcome) -> (result: N)
        ensures
            result == self.recall_spec(outcome),
    {
        share(self.true_positives.get(outcome), self.actual_positives.get(outcome))
    }
}

/// A part of a whole, or zero if the whole is.
pub open spec fn share_of<N: Number>(part: usize, whole: usize) -> N {
    if whole == 0 {
        zero_spec()
    } else {
        N::count_spec(part as nat).over_spec(N::count_spec(whole as nat))
    }
}

fn share<N: Number>(part: usize, whole: usize) -> (result: N)
    ensures
        result == share_of::<N>(part, whole),
{
    if whole == 0 {
        return zero();
    }
    N::count(part).over(N::count(whole))
}

// Evaluation

/// The evaluation of a model, batch by batch.
pub struct Evaluation<N> {
    pub total_loss: N,
    pub metrics: ClassificationMetrics<N>,
}

/// The number of classifications in a batch: as many targets as have a group of logits.
pub open spec fn batch_size(logits: nat, targets: nat) -> nat {
    if logits / 3 < targets {
        logits / 3
    } else {
        targets
    }
}

/// Whether the targets of a batch are outcomes.
pub open spec fn targets_valid(targets: Seq<i32>, count: nat) -> bool {
    forall|index: int| 0 <= index < count ==> 0 <= #[trigger] targets[index] < 3
}

impl<N: Number> Evaluation<N> {
    /// The evaluation after one more batch.
    pub open spec fn with_batch(self, loss: N, logits: Seq<N>, targets: Seq<i32>) -> Self {
        Evaluation {
            total_loss: self.total_loss.plus_spec(
                loss.times_spec(N::count_spec(targets.len())),
            ),
            metrics: self.metrics.counted_all(
                logits,
                targets,
                batch_size(logits.len(), targets.len()) as int,
            ),
        }
    }

    /// The metrics of all batches, with the mean loss of their classifications.
    pub open spec fn finished(self) -> ClassificationMetrics<N> {
        ClassificationMetrics {
            loss: self.total_loss.over_spec(N::count_spec(self.metrics.total as nat)),
            ..self.metrics
        }
    }

    /// An evaluation that has seen no batch.
    pub fn new() -> (result: Self)
        ensures
            result.total_loss == zero_spec::<N>(),
            result.metrics == empty_metrics::<N>(),
            result.metrics.consistent(),
    {
        Evaluation { total_loss: zero(), metrics: ClassificationMetrics::empty() }
    }

    /// Count the classifications of a batch, and weigh its loss by its size.
    pub fn add_batch(&mut self, loss: N, logits: &Vec<N>, targets: &Vec<i32>)
        requires
            old(self).metrics.consistent(),
            old(self).metrics.total + targets@.len() <= usize::MAX,
            targets_valid(targets@, batch_size(logits@.len(), targets@.len())),
        ensures
            *final(self) == old(self).with_batch(loss, logits@, targets@),
            final(self).total_loss == old(self).total_loss.plus_spec(
                loss.times_spec(N::count_spec(targets@.len())),
            ),
            final(self).metrics == old(self).metrics.counted_all(
                logits@,
                targets@,
                batch_size(logits@.len(), targets@.len()) as int,
            ),
            final(self).metrics.consistent(),
            final(self).metrics.total == old(self).metrics.total + batch_size(
                logits@.len(),
                targets@.len(),
            ),
    {
        self.total_loss = self.total_loss.plus(loss.times(N::count(targets.len())));
        let groups: usize = logits.len() / OUTCOME_COUNT;
        let count: usize = if groups < targets.len() {
            groups
        } else {
            targets.len()
        };
        let ghost before = self.metrics;
        for index in 0..count
            invariant
                count == batch_size(logits@.len(), targets@.len()),
                count * 3 <= logits@.len() <= usize::MAX,
                targets_valid(targets@, count as nat),
                before.total + targets@.len() <= usize::MAX,
                self.metrics.consistent(),
                self.metrics.total == before.total + index,
                self.metrics == before.counted_all(logits@, targets@, index as int),
                self.total_loss == old(self).total_loss.plus_spec(
                    loss.times_spec(N::count_spec(targets@.len())),
                ),
        {
            let prediction = predict_at(logits, index * 3);
            let target = outcome_with_index(targets[index]);
            self.metrics.record(prediction, target);
        }
    }

    /// Finish an evaluation with the mean loss of its classifications.
    pub fn finish(self) -> (result: ClassificationMetrics<N>)
        ensures
            result == self.finished(),
            result == (ClassificationMetrics {
                loss: self.total_loss.over_spec(N::count_spec(self.metrics.total as nat)),
                ..self.metrics
            }),
    {
        let loss = self.total_loss.over(N::count(self.metrics.total));
        ClassificationMetrics { loss, ..self.metrics }
    }
}

// Reports

/// A share in percent, to two decimal places.
pub open spec fn percent_text<N: Number>(value: N) -> Seq<char> {
    value.times_spec(hundred_spec()).show_fixed_spec(2)
}

fn show_percent<N: Number>(value: N) -> (result: String)
    ensures
        result@ == percent_text(value),
{
    value.times(hundred()).show_fixed(2)
}

/// The precision and recall of an outcome.
pub open spec fn quality_text<N: Number>(
    metrics: ClassificationMetrics<N>,
    outcome: PriceOutcome,
) -> Seq<char> {
    " precision "@ + percent_text(metrics.precision_spec(outcome)) + "%, recall "@ + percent_text(
        metrics.recall_spec(outcome),
    ) + "%"@
}

fn show_quality<N: Number>(metrics: &ClassificationMetrics<N>, outcome: PriceOutcome) -> (result:
    String)
    ensures
        result@ == quality_text(*metrics, outcome),
{
    joined5(
        " precision ",
        &show_percent(metrics.precision(outcome)),
        "%, recall ",
        &show_percent(metrics.recall(outcome)),
        "%",
    )
}

/// The loss and accuracy of a dataset.
pub open spec fn loss_text<N: Number>(metrics: ClassificationMetrics<N>) -> Seq<char> {
    " loss "@ + metrics.loss.show_fixed_spec(4) + ", accuracy "@ + percent_text(
        metrics.accuracy_spec(),
    ) + "%; "@
}

fn show_loss<N: Number>(metrics: &ClassificationMetrics<N>) -> (result: String)
    ensures
        result@ == loss_text(*metrics),
{
    joined5(
        " loss ",
        &metrics.loss.show_fixed(4),
        ", accuracy ",
        &show_percent(metrics.accuracy()),
        "%; ",
    )
}

/// The line that compares training and validation metrics.
pub open spec fn metrics_line<N: Number>(
    label: Seq<char>,
    training: ClassificationMetrics<N>,
    validation: ClassificationMetrics<N>,
) -> Seq<char> {
    label + ": train"@ + loss_text(training) + "validation"@ + loss_text(validation) + ("lower"@
        + quality_text(validation, PriceOutcome::LowerFirst) + "; upper"@ + quality_text(
        validation,
        PriceOutcome::UpperFirst,
    ) + "; neither"@ + quality_text(validation, PriceOutcome::Neither))
}

/// Report comparable training and validation metrics at one point in optimization.
pub fn report_metrics<N: Number>(
    label: &str,
    training: &ClassificationMetrics<N>,
    validation: &ClassificationMetrics<N>,
) -> (result: String)
    ensures
        result@ == metrics_line(label@, *training, *validation),
{
    let losses = joined5(
        label,
        ": train",
        &show_loss(training),
        "validation",
        &show_loss(validation),
    );
    let qualities = joined6(
        "lower",
        &show_quality(validation, PriceOutcome::LowerFirst),
        "; upper",
        &show_quality(validation, PriceOutcome::UpperFirst),
        "; neither",
        &show_quality(validation, PriceOutcome::Neither),
    );
    joined(&losses, &qualities)
}

/// The label of an epoch, with its number aligned to two places.
pub open spec fn epoch_text(epoch: nat, requested: nat) -> Seq<char> {
    (if epoch < 10 {
        "Epoch  "@
    } else {
        "Epoch "@
    }) + digits(epoch) + "/"@ + digits(requested)
}

/// Label the metrics of an epoch.
pub fn epoch_label(epoch: usize, requested: usize) -> (result: String)
    ensures
        result@ == epoch_text(epoch as nat, requested as nat),
{
    let head = if epoch < 10 {
        "Epoch  "
    } else {
        "Epoch "
    };
    joined4(head, &show_count(epoch), "/", &show_count(requested))
}

// Baseline

/// How often each outcome is the target of an item.
pub open spec fn target_count<N>(items: Seq<ItemModel<N>>, outcome: PriceOutcome) -> nat
    decreases items.len(),
{
    if items.len() == 0 {
        0
    } else {
        target_count(items.drop_last(), outcome) + if items.last().target == outcome {
            1nat
        } else {
            0nat
        }
    }
}

/// Count the targets of items.
pub fn count_targets<N: Number>(items: &Vec<SeriesItem<N>>) -> (result: OutcomeCounts)
    ensures
        forall|outcome: PriceOutcome| #[trigger]
            result.of(outcome) == target_count(item_models(items@), outcome),
        result.all() == items@.len(),
{
    let ghost models = item_models(items@);
    let mut result = OutcomeCounts::none();
    for index in 0..items.len()
        invariant
            models == item_models(items@),
            items@.len() <= usize::MAX,
            forall|outcome: PriceOutcome| #[trigger]
                result.of(outcome) == target_count(models.take(index as int), outcome),
            result.all() == index,
    {
        assert(models.take(index + 1).drop_last() =~= models.take(index as int));
        let ghost earlier = result;
        result.add(items[index].target);
        assert forall|outcome: PriceOutcome| #[trigger]
            result.of(outcome) == target_count(models.take(index + 1), outcome) by {
            assert(earlier.of(outcome) == target_count(models.take(index as int), outcome));
        }
    }
    assert(models.take(items.len() as int) =~= models);
    result
}

/// The share of each outcome among the targets of items.
pub open spec fn target_rate<N: Number>(items: Seq<ItemModel<N>>, outcome: PriceOutcome) -> N {
    N::count_spec(target_count(items, outcome)).over_spec(N::count_spec(items.len()))
}

/// The accuracy of always predicting the most frequent outcome.
pub open spec fn baseline_accuracy<N: Number>(items: Seq<ItemModel<N>>) -> N {
    zero_spec::<N>().maximum_spec(target_rate(items, PriceOutcome::LowerFirst)).maximum_spec(
        target_rate(items, PriceOutcome::UpperFirst),
    ).maximum_spec(target_rate(items, PriceOutcome::Neither))
}

/// The line that reports the sizes of both datasets.
pub open spec fn size_line(training: nat, validation: nat) -> Seq<char> {
    "Training on "@ + digits(training) + " windows and validating on "@ + digits(validation)
        + " windows…"@
}

/// The line that reports the distribution of outcomes.
pub open spec fn rates_line<N: Number>(items: Seq<ItemModel<N>>) -> Seq<char> {
    "Validation rates: lower first "@ + percent_text(
        target_rate(items, PriceOutcome::LowerFirst),
    ) + "%, upper first "@ + percent_text(target_rate(items, PriceOutcome::UpperFirst))
        + "%, neither "@ + percent_text(target_rate(items, PriceOutcome::Neither)) + (
    "%; majority baseline accuracy: "@ + percent_text(baseline_accuracy(items)) + "%"@)
}

/// Report the sizes of both datasets.
pub fn report_sizes<N: Number>(data: &PreparedData<N>) -> (result: String)
    ensures
        result@ == size_line(data@.training.len(), data@.validation.len()),
{
    joined5(
        "Training on ",
        &show_count(data.training.len()),
        " windows and validating on ",
        &show_count(data.validation.len()),
        " windows…",
    )
}

/// Establish the classification baseline from the validation label distribution.
pub fn report_rates<N: Number>(data: &PreparedData<N>) -> (result: String)
    ensures
        result@ == rates_line(data@.validation),
{
    let counts = count_targets(&data.validation);
    let total: N = N::count(data.validation.len());
    let lower = N::count(counts.get(PriceOutcome::LowerFirst)).over(total);
    let upper = N::count(counts.get(PriceOutcome::UpperFirst)).over(total);
    let neither = N::count(counts.get(PriceOutcome::Neither)).over(total);
    let baseline = zero::<N>().maximum(lower).maximum(upper).maximum(neither);
    let rates = joined6(
        "Validation rates: lower first ",
        &show_percent(lower),
        "%, upper first ",
        &show_percent(upper),
        "%, neither ",
        &show_percent(neither),
    );
    let majority = joined3("%; majority baseline accuracy: ", &show_percent(baseline), "%");
    joined(&rates, &majority)
}

} // verus!
