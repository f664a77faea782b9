//! Log lines of metrics.
use burn_quant::renderer::{
    log_metric, CliMetricsRenderer, MetricEntry, MetricState, NumericEntry, SerializedEntry,
};

fn entry() -> MetricEntry {
    MetricEntry {
        metric_id: "MetricId { id: \"loss\" }".to_string(),
        serialized_entry: SerializedEntry {
            formatted: "epoch 0.25 - batch 0.5".to_string(),
            serialized: "0.5,2".to_string(),
        },
    }
}

#[test]
fn generic_metrics_are_logged_as_they_are_shown() {
    let line = log_metric("train", MetricState::Generic(entry()));
    assert_eq!(line, "[train] epoch 0.25 - batch 0.5");
}

#[test]
fn numeric_metrics_are_logged_with_their_id() {
    let value = NumericEntry::Value(format!("{:.6}", 0.5));
    assert_eq!(
        log_metric("val", MetricState::Numeric(entry(), value)),
        "[val] MetricId { id: \"loss\" }: 0.500000"
    );
}

#[test]
fn aggregated_metrics_say_how_many_values_they_stand_for() {
    for count in [0, 7, 10, 64, 1000, 18446744073709551615] {
        let value = NumericEntry::Aggregated {
            aggregated_value: format!("{:.6}", -1.25),
            count,
        };
        assert_eq!(
            log_metric("train", MetricState::Numeric(entry(), value)),
            format!("[train] MetricId {{ id: \"loss\" }}: -1.250000 (n={count})")
        );
    }
}

#[test]
fn the_renderer_names_the_split() {
    let mut renderer = CliMetricsRenderer::new();
    let state = || MetricState::Generic(entry());
    assert_eq!(renderer.update_train(state()), "[train] epoch 0.25 - batch 0.5");
    assert_eq!(renderer.update_valid(state()), "[val] epoch 0.25 - batch 0.5");
    assert_eq!(renderer.update_test("mnist", state()), None);
}
