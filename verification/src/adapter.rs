//! The decision core of the simulation-component adapter.
//!
//! The adapter around the native simulation runtime delegates all real
//! computation to that runtime and all hosting to the engine; what is its
//! own is a small layer of decisions around the native calls: which error
//! each operation reports when no runtime is loaded, what bookkeeping a
//! load performs, and how outcomes are reported to the host. That layer
//! works on plain values, so it stands here, verified; the embedder
//! performs the native calls and routes every adapter method through these
//! functions, forwarding to the runtime only when [`decide`] says so.

use vstd::prelude::*;

verus! {

/// The operations a simulation component accepts.
#[derive(Clone, Copy, Debug, PartialEq, Eq, Structural)]
pub enum AdapterOp {
    Initialize,
    SetRealInput,
    SetBoolInput,
    GetOutput,
    Step,
    Reset,
}

/// The error kinds the adapter reports for an operation on a component
/// with no loaded runtime.
#[derive(Clone, Copy, Debug, PartialEq, Eq, Structural)]
pub enum NotLoadedKind {
    InitializationFailed,
    InvalidInput,
    InvalidOutput,
    StepFailed,
}

/// What the component does with an operation: forward it to the loaded
/// runtime, refuse it with the operation's own not-loaded error, or accept
/// it as a no-op even without a runtime.
#[derive(Clone, Copy, Debug, PartialEq, Eq, Structural)]
pub enum AdapterOutcome {
    Forward,
    NotLoadedError(NotLoadedKind),
    AcceptUnloaded,
}

/// What the component does with an operation, given whether a runtime is
/// loaded. With a runtime every operation is forwarded; without one,
/// resetting is accepted as a no-op and every other operation is refused
/// with its own error kind.
pub fn decide(loaded: bool, op: AdapterOp) -> (r: AdapterOutcome)
    ensures
        loaded ==> r == AdapterOutcome::Forward,
        !loaded ==> r == (match op {
            AdapterOp::Initialize => AdapterOutcome::NotLoadedError(
                NotLoadedKind::InitializationFailed,
            ),
            AdapterOp::SetRealInput => AdapterOutcome::NotLoadedError(NotLoadedKind::InvalidInput),
            AdapterOp::SetBoolInput => AdapterOutcome::NotLoadedError(NotLoadedKind::InvalidInput),
            AdapterOp::GetOutput => AdapterOutcome::NotLoadedError(NotLoadedKind::InvalidOutput),
            AdapterOp::Step => AdapterOutcome::NotLoadedError(NotLoadedKind::StepFailed),
            AdapterOp::Reset => AdapterOutcome::AcceptUnloaded,
        }),
{
    if loaded {
        AdapterOutcome::Forward
    } else {
        match op {
            AdapterOp::Initialize => AdapterOutcome::NotLoadedError(
                NotLoadedKind::InitializationFailed,
            ),
            AdapterOp::SetRealInput => AdapterOutcome::NotLoadedError(NotLoadedKind::InvalidInput),
            AdapterOp::SetBoolInput => AdapterOutcome::NotLoadedError(NotLoadedKind::InvalidInput),
            AdapterOp::GetOutput => AdapterOutcome::NotLoadedError(NotLoadedKind::InvalidOutput),
            AdapterOp::Step => AdapterOutcome::NotLoadedError(NotLoadedKind::StepFailed),
            AdapterOp::Reset => AdapterOutcome::AcceptUnloaded,
        }
    }
}

/// The adapter's own state: the recorded component name and whether a
/// runtime is loaded.
#[derive(Debug)]
pub struct AdapterState {
    pub name: Vec<u8>,
    pub loaded: bool,
}

impl AdapterState {
    /// A fresh component: no name recorded, nothing loaded.
    pub fn new() -> (r: AdapterState)
        ensures
            r.name@ == Seq::<u8>::empty(),
            !r.loaded,
    {
        AdapterState { name: Vec::new(), loaded: false }
    }
}

/// A load's bookkeeping: the name is recorded unconditionally — before the
/// fallible native load, so a failed load still leaves it recorded — and
/// the component counts as loaded afterwards exactly when the load
/// succeeded or a runtime was already there (a failed load keeps whatever
/// runtime the component had).
pub fn record_load(state: &mut AdapterState, name: &[u8], load_ok: bool)
    ensures
        final(state).name@ == name@,
        final(state).loaded == (load_ok || old(state).loaded),
{
    let mut recorded: Vec<u8> = Vec::new();
    recorded.extend_from_slice(name);
    proof {
        assert(recorded@ =~= name@);
    }
    state.name = recorded;
    if load_ok {
        state.loaded = true;
    }
}

/// A load request's report to the host: true exactly when the load
/// succeeded and the initialization that follows it succeeded too.
pub fn load_report(load_ok: bool, init_ok: bool) -> (r: bool)
    ensures
        r == (load_ok && init_ok),
{
    load_ok && init_ok
}

/// The per-frame rule: a failed step is reported and never propagated —
/// the frame itself always goes on. Returns whether the step's failure is
/// to be reported.
pub fn report_frame_error(step_ok: bool) -> (r: bool)
    ensures
        r == !step_ok,
{
    !step_ok
}

/// An optional value, or the given default where there is none: the rule
/// behind every read-out that substitutes a fixed fallback for a failed
/// native call.
pub fn or_default<T>(r: Option<T>, d: T) -> (x: T)
    ensures
        match r {
            Option::Some(v) => x == v,
            Option::None => x == d,
        },
{
    match r {
        Option::Some(v) => v,
        Option::None => d,
    }
}

/// The names under which the component publishes outputs in bulk: none.
/// The generic component answers single-output queries only, so its bulk
/// output map is always empty.
pub fn output_keys() -> (r: Vec<Vec<u8>>)
    ensures
        r@.len() == 0,
{
    Vec::new()
}

/// The type label of the generic component.
pub open spec fn generic_type_label() -> Seq<u8> {
    seq![71u8, 101u8, 110u8, 101u8, 114u8, 105u8, 99u8]
}

/// The component's self-description, as plain values.
#[derive(Debug)]
pub struct AdapterMetadata {
    pub name: Vec<u8>,
    pub component_type: Vec<u8>,
    pub inputs: Vec<Vec<u8>>,
    pub outputs: Vec<Vec<u8>>,
}

/// The metadata a component reports: the recorded name, the fixed generic
/// type label, and no declared inputs or outputs.
pub fn metadata_of(state: &AdapterState) -> (r: AdapterMetadata)
    ensures
        r.name@ == state.name@,
        r.component_type@ == generic_type_label(),
        r.inputs@.len() == 0,
        r.outputs@.len() == 0,
{
    let name = state.name.clone();
    proof {
        assert(name@ =~= state.name@);
    }
    let mut component_type: Vec<u8> = Vec::new();
    component_type.push(71);
    component_type.push(101);
    component_type.push(110);
    component_type.push(101);
    component_type.push(114);
    component_type.push(105);
    component_type.push(99);
    proof {
        assert(component_type@ =~= generic_type_label());
    }
    AdapterMetadata { name, component_type, inputs: Vec::new(), outputs: Vec::new() }
}

} // verus!
