use string_identity::adapter::{
    decide, load_report, metadata_of, or_default, output_keys, record_load, report_frame_error,
    AdapterOp, AdapterOutcome, AdapterState, NotLoadedKind,
};

#[test]
fn adapter_decide_loaded_forwards_everything() {
    let ops = [
        AdapterOp::Initialize,
        AdapterOp::SetRealInput,
        AdapterOp::SetBoolInput,
        AdapterOp::GetOutput,
        AdapterOp::Step,
        AdapterOp::Reset,
    ];
    for op in ops.into_iter() {
        assert_eq!(decide(true, op), AdapterOutcome::Forward);
    }
}

#[test]
fn adapter_decide_unloaded_errors() {
    assert_eq!(
        decide(false, AdapterOp::Initialize),
        AdapterOutcome::NotLoadedError(NotLoadedKind::InitializationFailed)
    );
    assert_eq!(
        decide(false, AdapterOp::SetRealInput),
        AdapterOutcome::NotLoadedError(NotLoadedKind::InvalidInput)
    );
    assert_eq!(
        decide(false, AdapterOp::SetBoolInput),
        AdapterOutcome::NotLoadedError(NotLoadedKind::InvalidInput)
    );
    assert_eq!(
        decide(false, AdapterOp::GetOutput),
        AdapterOutcome::NotLoadedError(NotLoadedKind::InvalidOutput)
    );
    assert_eq!(
        decide(false, AdapterOp::Step),
        AdapterOutcome::NotLoadedError(NotLoadedKind::StepFailed)
    );
}

#[test]
fn adapter_decide_unloaded_reset_is_accepted() {
    assert_eq!(decide(false, AdapterOp::Reset), AdapterOutcome::AcceptUnloaded);
}

#[test]
fn adapter_record_load_keeps_name_on_failure() {
    let mut state = AdapterState::new();
    assert!(state.name.is_empty());
    assert!(!state.loaded);

    // A failed load still records the name and loads nothing.
    record_load(&mut state, b"Pendulum", false);
    assert_eq!(state.name, b"Pendulum".to_vec());
    assert!(!state.loaded);

    // A successful load records the new name and marks the component
    // loaded.
    record_load(&mut state, b"Oscillator", true);
    assert_eq!(state.name, b"Oscillator".to_vec());
    assert!(state.loaded);

    // A later failed load renames but keeps the runtime that was there.
    record_load(&mut state, b"Broken", false);
    assert_eq!(state.name, b"Broken".to_vec());
    assert!(state.loaded);
}

#[test]
fn adapter_load_report_truth_table() {
    assert!(load_report(true, true));
    assert!(!load_report(true, false));
    assert!(!load_report(false, false));
    assert!(!load_report(false, true));
}

#[test]
fn adapter_frame_error_reporting() {
    assert!(!report_frame_error(true));
    assert!(report_frame_error(false));
}

#[test]
fn adapter_or_default() {
    assert_eq!(or_default(Some(7i64), 0), 7);
    assert_eq!(or_default(None, 0i64), 0);
}

#[test]
fn adapter_bulk_outputs_are_empty() {
    assert_eq!(output_keys().len(), 0);
}

#[test]
fn adapter_metadata_shape() {
    let mut state = AdapterState::new();
    record_load(&mut state, b"Pendulum", true);
    let meta = metadata_of(&state);
    assert_eq!(meta.name, b"Pendulum".to_vec());
    assert_eq!(meta.component_type, b"Generic".to_vec());
    assert!(meta.inputs.is_empty());
    assert!(meta.outputs.is_empty());
}
