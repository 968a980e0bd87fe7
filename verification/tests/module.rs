use clogbox::graph::module::{ModuleError, ProcessStatus as GraphStatus};
use clogbox::graph::SlotType;
use clogbox::enums::{CartesianProduct, Enum, Stereo};
use clogbox::module::{OwnedBufferStorage, ProcessStatus, SummingMatrix, SummingMatrixParams};

#[test]
fn merge_examples() {
    assert_eq!(ProcessStatus::Running.merge(&ProcessStatus::Done), ProcessStatus::Done);
    assert_eq!(ProcessStatus::Tail(5).merge(&ProcessStatus::Tail(10)), ProcessStatus::Tail(15));
    assert_eq!(ProcessStatus::Running.merge(&ProcessStatus::Running), ProcessStatus::Running);
    assert_eq!(ProcessStatus::Done.merge(&ProcessStatus::Tail(3)), ProcessStatus::Tail(3));
    assert_eq!(ProcessStatus::Tail(3).merge(&ProcessStatus::Running), ProcessStatus::Tail(3));
}

#[test]
fn merge_is_commutative_on_examples() {
    let all = [ProcessStatus::Running, ProcessStatus::Done, ProcessStatus::Tail(2), ProcessStatus::Tail(9)];
    for a in &all {
        for b in &all {
            assert_eq!(a.merge(b), b.merge(a));
        }
    }
}

#[test]
fn graph_status_defaults_to_running() {
    assert_eq!(GraphStatus::default(), GraphStatus::Running);
    assert_ne!(GraphStatus::Silent, GraphStatus::Tail(0));
}

#[test]
fn module_error_messages() {
    let e = ModuleError::MissingRequiredInput(SlotType::Audio, "left".to_string());
    assert_eq!(e.message(), "Missing required input: left of type Audio");
    let e = ModuleError::MissingRequiredOutput(SlotType::Note, "keys".to_string());
    assert_eq!(e.message(), "Missing required output: keys of type Note");
    assert_eq!(ModuleError::NotReady.message(), "Module not ready");
    assert_eq!(ModuleError::Fatal("boom".to_string()).message(), "Fatal error: boom");
}

#[test]
fn owned_storage_buffers() {
    let mut s: OwnedBufferStorage<i32> = OwnedBufferStorage::new(2, 1, 4, 0);
    assert_eq!(s.inputs.len(), 2);
    assert_eq!(s.outputs.len(), 1);
    assert_eq!(s.get_input_buffer(1), &[0, 0, 0, 0]);
    s.inputs[0][2] = 5;
    {
        let (inp, out) = s.get_inout_pair(0, 0);
        out[1] = inp[2] * 2;
    }
    assert_eq!(s.outputs[0], vec![0, 10, 0, 0]);
    s.get_output_buffer(0)[3] = 1;
    assert_eq!(s.outputs[0], vec![0, 10, 0, 1]);
    s.clear_output(0, 0);
    assert_eq!(s.outputs[0], vec![0, 0, 0, 0]);
    s.clear_input(0, -1);
    assert_eq!(s.inputs[0], vec![-1, -1, -1, -1]);
    s.reset(0);
    assert_eq!(s.inputs[0], vec![0, 0, 0, 0]);
    assert_eq!(s.inputs[1], vec![0, 0, 0, 0]);
    let _m: SummingMatrix<f32, u8, u8> = SummingMatrix::new();
}

#[test]
fn summing_matrix_params_pair_inputs_with_outputs() {
    type P = SummingMatrixParams<Stereo, Stereo>;
    assert_eq!(P::count(), 4);
    let p = P::from_usize(1);
    assert_eq!(p.0 .0, Stereo::Left);
    assert_eq!(p.0 .1, Stereo::Right);
    assert_eq!(p.name(), "Left:Right");
    assert_eq!(SummingMatrixParams(CartesianProduct(Stereo::Right, Stereo::Left)).to_usize(), 2);
}
