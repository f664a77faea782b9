//! Metrics as lines of a log, for programs without a user interface.
use vstd::prelude::*;

verus! {

/// A metric entry in text form.
pub struct SerializedEntry {
    /// The entry as it is shown to users.
    pub formatted: String,
    /// The entry as it is stored.
    pub serialized: String,
}

/// An entry of a metric.
pub struct MetricEntry {
    /// The id of the metric, in its debug form.
    pub metric_id: String,
    /// The entry in text form.
    pub serialized_entry: SerializedEntry,
}

/// A numeric metric value. Values are decimal texts with six digits after the point.
pub enum NumericEntry {
    /// One value.
    Value(String),
    /// A value that stands for several.
    Aggregated {
        /// The value.
        aggregated_value: String,
        /// How many values it stands for.
        count: usize,
    },
}

/// The state of a metric.
pub enum MetricState {
    /// A metric that is only shown.
    Generic(MetricEntry),
    /// A metric with a numeric value.
    Numeric(MetricEntry, NumericEntry),
}

/// The digit `d` of a decimal number.
pub open spec fn digit(d: int) -> char {
    ('0' as int + d) as char
}

/// The decimal digits of `n`.
pub open spec fn decimal(n: nat) -> Seq<char>
    decreases n,
{
    if n < 10 {
        seq![digit(n as int)]
    } else {
        decimal(n / 10).push(digit((n % 10) as int))
    }
}

/// What is said of a numeric value.
pub open spec fn numeric_text(numeric: NumericEntry) -> Seq<char> {
    match numeric {
        NumericEntry::Value(value) => value@,
        NumericEntry::Aggregated { aggregated_value, count } => aggregated_value@ + " (n="@
            + decimal(count as nat) + ")"@,
    }
}

/// The line that is logged for the state of a metric of the given split.
pub open spec fn metric_line(split: Seq<char>, state: MetricState) -> Seq<char> {
    match state {
        MetricState::Generic(entry) => "["@ + split + "] "@ + entry.serialized_entry.formatted@,
        MetricState::Numeric(entry, numeric) => "["@ + split + "] "@ + entry.metric_id@ + ": "@
            + numeric_text(numeric),
    }
}

/// The number that decimal digits stand for.
pub open spec fn number(text: Seq<char>) -> int
    decreases text.len(),
{
    if text.len() == 0 {
        0
    } else {
        10 * number(text.drop_last()) + (text.last() as int - '0' as int)
    }
}

/// The decimal digits of a number stand for it. There is at least one, all of them are digits, and
/// only zero begins with a zero.
pub proof fn law_decimal(n: nat)
    ensures
        number(decimal(n)) == n,
        decimal(n).len() >= 1,
        forall|i: int| 0 <= i < decimal(n).len() ==> '0' <= #[trigger] decimal(n)[i] <= '9',
        n > 0 ==> decimal(n)[0] != '0',
    decreases n,
{
    if n < 10 {
        let text: Seq<char> = decimal(n);
        assert(text.drop_last() =~= Seq::<char>::empty());
        assert(number(text.drop_last()) == 0);
        assert(text[0] == digit(n as int));
    } else {
        law_decimal(n / 10);
        let head: Seq<char> = decimal(n / 10);
        let text: Seq<char> = decimal(n);
        assert(text.drop_last() =~= head);
        assert(text.last() == digit((n % 10) as int));
        assert forall|i: int| 0 <= i < text.len() implies '0' <= #[trigger] text[i] <= '9' by {
            if i < head.len() {
                assert(text[i] == head[i]);
            }
        }
        assert(text[0] == head[0]);
    }
}

/// A line names its split in brackets. What follows is the text of a metric that is only shown, or
/// the id of a numeric one and its value, which stands alone or is followed by how many values it
/// stands for.
pub proof fn law_lines(
    split: Seq<char>,
    entry: MetricEntry,
    value: String,
    count: usize,
)
    ensures
        metric_line(split, MetricState::Generic(entry)) == "["@ + split + "] "@
            + entry.serialized_entry.formatted@,
        metric_line(split, MetricState::Numeric(entry, NumericEntry::Value(value))) == "["@ + split
            + "] "@ + entry.metric_id@ + ": "@ + value@,
        metric_line(
            split,
            MetricState::Numeric(
                entry,
                NumericEntry::Aggregated { aggregated_value: value, count },
            ),
        ) == metric_line(split, MetricState::Numeric(entry, NumericEntry::Value(value))) + " (n="@
            + decimal(count as nat) + ")"@,
{
}

/// Lines of the same state differ in the name of the split and in nothing else.
pub proof fn law_splits(split1: Seq<char>, split2: Seq<char>, state: MetricState)
    ensures
        metric_line(split1, state).skip(("["@ + split1).len() as int) == metric_line(
            split2,
            state,
        ).skip(("["@ + split2).len() as int),
        metric_line(split1, state).take(("["@ + split1).len() as int) == "["@ + split1,
{
    let rest: Seq<char> = match state {
        MetricState::Generic(entry) => "] "@ + entry.serialized_entry.formatted@,
        MetricState::Numeric(entry, numeric) => "] "@ + entry.metric_id@ + ": "@ + numeric_text(
            numeric,
        ),
    };
    assert(metric_line(split1, state) =~= "["@ + split1 + rest);
    assert(metric_line(split2, state) =~= "["@ + split2 + rest);
    assert(("["@ + split1 + rest).skip(("["@ + split1).len() as int) =~= rest);
    assert(("["@ + split2 + rest).skip(("["@ + split2).len() as int) =~= rest);
    assert(("["@ + split1 + rest).take(("["@ + split1).len() as int) =~= "["@ + split1);
}

/// Appends a decimal digit.
fn append_digit(text: &mut String, d: usize)
    requires
        d < 10,
    ensures
        final(text)@ == old(text)@.push(digit(d as int)),
{
    let symbol: &str = match d {
        0 => "0",
        1 => "1",
        2 => "2",
        3 => "3",
        4 => "4",
        5 => "5",
        6 => "6",
        7 => "7",
        8 => "8",
        _ => "9",
    };
    proof {
        reveal_strlit("0");
        reveal_strlit("1");
        reveal_strlit("2");
        reveal_strlit("3");
        reveal_strlit("4");
        reveal_strlit("5");
        reveal_strlit("6");
        reveal_strlit("7");
        reveal_strlit("8");
        reveal_strlit("9");
        assert(symbol@ =~= seq![digit(d as int)]);
    }
    let ghost before: Seq<char> = text@;
    text.append(symbol);
    assert(text@ =~= before.push(digit(d as int)));
}

/// Appends a number in decimal digits.
fn append_decimal(text: &mut String, n: usize)
    ensures
        final(text)@ == old(text)@ + decimal(n as nat),
    decreases n,
{
    let ghost before: Seq<char> = text@;
    if n >= 10 {
        append_decimal(text, n / 10);
    }
    append_digit(text, n % 10);
    assert(text@ =~= before + decimal(n as nat));
}

/// The line that is logged, at the info level, for the state of a metric.
pub fn log_metric(split: &str, state: MetricState) -> (line: String)
    ensures
        line@ == metric_line(split@, state),
        match state {
            MetricState::Generic(entry) => line@ == "["@ + split@ + "] "@
                + entry.serialized_entry.formatted@,
            MetricState::Numeric(entry, NumericEntry::Value(value)) => line@ == "["@ + split@
                + "] "@ + entry.metric_id@ + ": "@ + value@,
            MetricState::Numeric(
                entry,
                NumericEntry::Aggregated { aggregated_value, count },
            ) => line@ == "["@ + split@ + "] "@ + entry.metric_id@ + ": "@ + (aggregated_value@
                + " (n="@ + decimal(count as nat) + ")"@),
        },
{
    let mut line: String = String::new();
    line.append("[");
    line.append(split);
    line.append("] ");
    match &state {
        MetricState::Generic(entry) => {
            line.append(entry.serialized_entry.formatted.as_str());
        },
        MetricState::Numeric(entry, numeric) => {
            line.append(entry.metric_id.as_str());
            line.append(": ");
            match numeric {
                NumericEntry::Value(value) => {
                    line.append(value.as_str());
                },
                NumericEntry::Aggregated { aggregated_value, count } => {
                    line.append(aggregated_value.as_str());
                    line.append(" (n=");
                    append_decimal(&mut line, *count);
                    line.append(")");
                },
            }
        },
    }
    assert(line@ =~= metric_line(split@, state));
    line
}

/// A renderer that writes metrics to the log.
pub struct CliMetricsRenderer;

impl CliMetricsRenderer {
    /// Create a new instance.
    pub fn new() -> (renderer: CliMetricsRenderer)
        ensures
            renderer == CliMetricsRenderer,
    {
        CliMetricsRenderer {  }
    }

    /// The line that is logged for a metric of the training split.
    pub fn update_train(&mut self, state: MetricState) -> (line: String)
        ensures
            line@ == metric_line("train"@, state),
    {
        log_metric("train", state)
    }

    /// The line that is logged for a metric of the validation split.
    pub fn update_valid(&mut self, state: MetricState) -> (line: String)
        ensures
            line@ == metric_line("val"@, state),
    {
        log_metric("val", state)
    }

    /// The line that is logged for a metric of the test split: none.
    pub fn update_test(&mut self, _name: &str, _state: MetricState) -> (line: Option<String>)
        ensures
            line is None,
    {
        None
    }
}

} // verus!
