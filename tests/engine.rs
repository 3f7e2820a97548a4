use modular_synth::engine::{AudioEngine, Connection, EngineError};
use modular_synth::module::{ModuleBase, ModuleId};

fn id(v: u128) -> ModuleId {
    ModuleId::from_u128(v)
}

/// Oscillator (2 inputs), filter (3 inputs), envelope (1 input), each with one
/// output, registered in that order.
fn patch(buffer_size: usize) -> (AudioEngine, ModuleId, ModuleId, ModuleId) {
    let mut engine = AudioEngine::new(44100, buffer_size);
    let vco = engine.add_module(ModuleBase::with_id(id(1), "Serge VCO", 2, 1, buffer_size)).unwrap();
    let vcf = engine.add_module(ModuleBase::with_id(id(2), "Serge VCF", 3, 1, buffer_size)).unwrap();
    let eg = engine
        .add_module(ModuleBase::with_id(id(3), "Envelope Generator", 1, 1, buffer_size))
        .unwrap();
    (engine, vco, vcf, eg)
}

fn position(order: &[ModuleId], m: ModuleId) -> usize {
    order.iter().position(|x| *x == m).unwrap()
}

#[test]
fn new_engine_is_empty() {
    let engine = AudioEngine::new(48000, 64);
    assert_eq!(engine.sample_rate(), 48000);
    assert_eq!(engine.buffer_size(), 64);
    assert_eq!(engine.module_count(), 0);
    assert!(engine.processing_order().is_empty());
    assert!(engine.connections().is_empty());
}

#[test]
fn add_module_returns_its_identity() {
    let mut engine = AudioEngine::new(44100, 8);
    let r = engine.add_module(ModuleBase::with_id(id(42), "Serge VCO", 2, 1, 8));
    assert_eq!(r, Ok(id(42)));
    assert_eq!(engine.module_count(), 1);
    assert_eq!(engine.processing_order(), vec![id(42)]);
    let m = engine.get_module(id(42)).unwrap();
    assert_eq!(m.name(), "Serge VCO");
    assert_eq!(m.input_count(), 2);
    assert_eq!(m.output_count(), 1);
    assert!(engine.get_module(id(7)).is_none());
    assert_eq!(engine.module_slot(id(42)), Some(0));
}

#[test]
fn duplicate_identity_is_refused() {
    let mut engine = AudioEngine::new(44100, 8);
    engine.add_module(ModuleBase::with_id(id(5), "a", 1, 1, 8)).unwrap();
    let r = engine.add_module(ModuleBase::with_id(id(5), "b", 1, 1, 8));
    assert_eq!(r, Err(EngineError::DuplicateModule));
    assert_eq!(engine.module_count(), 1);
    assert_eq!(engine.get_module(id(5)).unwrap().name(), "a");
}

#[test]
fn random_identities_differ() {
    let a = ModuleBase::new("a", 1, 1, 8);
    let b = ModuleBase::new("b", 1, 1, 8);
    assert_ne!(a.id(), b.id());
    assert_eq!(a.buffer_size(), 8);
}

#[test]
fn order_places_sources_before_destinations() {
    let (mut engine, vco, vcf, eg) = patch(4);
    assert_eq!(engine.connect_modules(vco, 0, vcf, 0), Ok(()));
    assert_eq!(engine.connect_modules(eg, 0, vco, 1), Ok(()));
    assert_eq!(engine.connect_modules(eg, 0, vcf, 2), Ok(()));
    let order = engine.processing_order();
    assert_eq!(order.len(), 3);
    assert!(position(&order, vco) < position(&order, vcf));
    assert!(position(&order, eg) < position(&order, vco));
    assert!(position(&order, eg) < position(&order, vcf));
    assert_eq!(order, vec![eg, vco, vcf]);
    let slots = engine.processing_slots();
    assert_eq!(slots, vec![2, 0, 1]);
}

#[test]
fn cycle_is_refused_and_state_kept() {
    let (mut engine, vco, vcf, eg) = patch(4);
    engine.connect_modules(vco, 0, vcf, 0).unwrap();
    engine.connect_modules(eg, 0, vco, 1).unwrap();
    let order = engine.processing_order();
    let conns = engine.connections();
    assert_eq!(engine.connect_modules(vcf, 0, eg, 0), Err(EngineError::GraphCycle));
    assert_eq!(engine.processing_order(), order);
    assert_eq!(engine.connections(), conns);
    assert_eq!(engine.connect_modules(vcf, 0, vco, 0), Err(EngineError::GraphCycle));
    assert_eq!(engine.processing_order(), order);
    assert_eq!(engine.connections(), conns);
}

#[test]
fn self_loop_is_a_cycle() {
    let (mut engine, vco, _vcf, _eg) = patch(4);
    assert_eq!(engine.connect_modules(vco, 0, vco, 0), Err(EngineError::GraphCycle));
    assert!(engine.connections().is_empty());
}

#[test]
fn unknown_module_is_refused() {
    let (mut engine, vco, _vcf, _eg) = patch(4);
    assert_eq!(engine.connect_modules(vco, 0, id(99), 0), Err(EngineError::UnknownModule));
    assert_eq!(engine.connect_modules(id(99), 0, vco, 0), Err(EngineError::UnknownModule));
    assert!(engine.connections().is_empty());
}

#[test]
fn port_out_of_range_is_refused() {
    let (mut engine, vco, vcf, eg) = patch(4);
    assert_eq!(engine.connect_modules(vco, 1, vcf, 0), Err(EngineError::PortIndexOutOfRange));
    assert_eq!(engine.connect_modules(eg, 0, vcf, 3), Err(EngineError::PortIndexOutOfRange));
    assert_eq!(engine.connect_modules(eg, 0, vcf, 2), Ok(()));
    assert_eq!(engine.connections().len(), 1);
}

#[test]
fn connections_are_listed_in_order() {
    let (mut engine, vco, vcf, eg) = patch(4);
    engine.connect_modules(vco, 0, vcf, 0).unwrap();
    engine.connect_modules(eg, 0, vcf, 2).unwrap();
    assert_eq!(
        engine.connections(),
        vec![
            Connection { source: vco, source_output: 0, destination: vcf, dest_input: 0 },
            Connection { source: eg, source_output: 0, destination: vcf, dest_input: 2 },
        ]
    );
}

#[test]
fn inputs_are_routed_into_port_blocks() {
    let (mut engine, vco, vcf, eg) = patch(2);
    engine.connect_modules(vco, 0, vcf, 0).unwrap();
    engine.connect_modules(eg, 0, vcf, 2).unwrap();
    // slots: vco 0, vcf 1, eg 2
    let produced: Vec<Option<Vec<f32>>> = vec![Some(vec![1.0, 2.0]), None, Some(vec![3.0, 4.0])];
    let inputs = engine.assemble_inputs(1, &produced, 0.0f32);
    assert_eq!(inputs, vec![1.0, 2.0, 0.0, 0.0, 3.0, 4.0]);
}

#[test]
fn unproduced_sources_leave_zeros() {
    let (mut engine, vco, vcf, _eg) = patch(3);
    engine.connect_modules(vco, 0, vcf, 1).unwrap();
    let produced: Vec<Option<Vec<f32>>> = vec![None, None, None];
    assert_eq!(engine.assemble_inputs(1, &produced, 0.0f32), vec![0.0; 9]);
    let short: Vec<Option<Vec<f32>>> = vec![Some(vec![7.0])];
    assert_eq!(
        engine.assemble_inputs(1, &short, 0.0f32),
        vec![0.0, 0.0, 0.0, 7.0, 0.0, 0.0, 0.0, 0.0, 0.0]
    );
}

#[test]
fn later_connection_into_same_port_wins() {
    let (mut engine, vco, vcf, eg) = patch(2);
    engine.connect_modules(vco, 0, vcf, 0).unwrap();
    engine.connect_modules(eg, 0, vcf, 0).unwrap();
    let produced: Vec<Option<Vec<f32>>> = vec![Some(vec![1.0, 1.0]), None, Some(vec![9.0, 8.0])];
    assert_eq!(engine.assemble_inputs(1, &produced, 0.0f32), vec![9.0, 8.0, 0.0, 0.0, 0.0, 0.0]);
    let only_first: Vec<Option<Vec<f32>>> = vec![Some(vec![1.0, 1.0]), None, None];
    assert_eq!(engine.assemble_inputs(1, &only_first, 0.0f32), vec![1.0, 1.0, 0.0, 0.0, 0.0, 0.0]);
}

#[test]
fn module_without_inputs_gets_empty_buffer() {
    let mut engine = AudioEngine::new(44100, 4);
    engine.add_module(ModuleBase::with_id(id(1), "source", 0, 1, 4)).unwrap();
    let produced: Vec<Option<Vec<f32>>> = vec![];
    assert!(engine.assemble_inputs(0, &produced, 0.0f32).is_empty());
}

#[test]
fn sink_is_last_in_order() {
    let (mut engine, vco, vcf, eg) = patch(2);
    engine.connect_modules(vco, 0, vcf, 0).unwrap();
    engine.connect_modules(eg, 0, vco, 1).unwrap();
    engine.connect_modules(eg, 0, vcf, 2).unwrap();
    let produced: Vec<Option<Vec<f32>>> =
        vec![Some(vec![1.0, 2.0]), Some(vec![5.0, 6.0]), Some(vec![3.0, 4.0])];
    assert_eq!(engine.cycle_output(&produced, 0.0f32), vec![5.0, 6.0]);
    let missing: Vec<Option<Vec<f32>>> = vec![Some(vec![1.0, 2.0]), None, None];
    assert_eq!(engine.cycle_output(&missing, 0.0f32), vec![0.0, 0.0]);
}

#[test]
fn empty_engine_outputs_silence() {
    let engine = AudioEngine::new(44100, 5);
    let produced: Vec<Option<Vec<f32>>> = vec![];
    assert_eq!(engine.cycle_output(&produced, 0.0f32), vec![0.0; 5]);
}

/// The three-module patch run for one cycle with stand-in modules: each
/// output is the sum of its input blocks plus a per-module offset.
#[test]
fn three_module_patch_runs_one_cycle() {
    let b = 3;
    let (mut engine, vco, vcf, eg) = patch(b);
    engine.connect_modules(vco, 0, vcf, 0).unwrap();
    engine.connect_modules(eg, 0, vco, 1).unwrap();
    engine.connect_modules(eg, 0, vcf, 2).unwrap();
    let offsets = [10.0f32, 100.0, 1.0];
    let mut produced: Vec<Option<Vec<f32>>> = vec![None; engine.module_count()];
    for slot in engine.processing_slots() {
        let inputs = engine.assemble_inputs(slot, &produced, 0.0f32);
        let mut out = vec![offsets[slot]; b];
        for (k, x) in inputs.iter().enumerate() {
            out[k % b] += *x;
        }
        produced[slot] = Some(out);
    }
    // eg: 1; vco: 10 + eg; vcf: 100 + vco + eg
    assert_eq!(produced[2], Some(vec![1.0; 3]));
    assert_eq!(produced[0], Some(vec![11.0; 3]));
    assert_eq!(engine.cycle_output(&produced, 0.0f32), vec![112.0; 3]);
}

#[test]
fn zero_length_buffers_route_nothing() {
    let (mut engine, vco, vcf, _eg) = patch(0);
    engine.connect_modules(vco, 0, vcf, 0).unwrap();
    let produced: Vec<Option<Vec<f32>>> = vec![Some(vec![]), None, None];
    assert!(engine.assemble_inputs(1, &produced, 0.0f32).is_empty());
    assert!(engine.cycle_output(&vec![None, None, None], 0.0f32).is_empty());
}

#[test]
fn single_module_self_loop_keeps_order() {
    let mut engine = AudioEngine::new(44100, 512);
    let a = engine.add_module(ModuleBase::with_id(id(1), "Serge VCO", 2, 1, 512)).unwrap();
    assert_eq!(engine.connect_modules(a, 0, a, 0), Err(EngineError::GraphCycle));
    assert!(engine.connections().is_empty());
    assert_eq!(engine.processing_order(), vec![a]);
}
