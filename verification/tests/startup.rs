use whale::eval::nnue::loader::Network;
use whale::eval::nnue::state::{
    active_loaded_net, active_model_name, eval_file_action, is_dual_net_enabled, load_net,
    maintenance_active, model_candidates, resolve_model_path, set_dual_net, set_eval_file,
    try_load_default, try_load_default_path, unload_nets, EvalFileAction, EvalState,
};
use whale::eval::nnue::v16::arch::{L1, LEB128_MAGIC, N_BUCKETS, PSQ_DIMS, SF_FILE_VERSION};
use whale::eval::nnue::v16::arch::{arch_hash, FC0_OUT, FC1_OUT};
use whale::init;

fn new_state() -> EvalState {
    EvalState::new(*Network::zeroed())
}

fn push_zeros(buf: &mut Vec<u8>, count: usize) {
    buf.extend_from_slice(&LEB128_MAGIC);
    buf.extend_from_slice(&(count as u32).to_le_bytes());
    buf.extend(std::iter::repeat_n(0u8, count));
}

/// The file of a full-size network without threats, all of whose weights are zero.
fn zero_network_file() -> Vec<u8> {
    let mut buf = Vec::new();
    buf.extend_from_slice(&SF_FILE_VERSION.to_le_bytes());
    buf.extend_from_slice(&[0u8; 12]);
    push_zeros(&mut buf, L1);
    push_zeros(&mut buf, PSQ_DIMS * L1);
    push_zeros(&mut buf, PSQ_DIMS * N_BUCKETS);
    for _ in 0..N_BUCKETS {
        buf.extend_from_slice(&arch_hash(L1 as u32).to_le_bytes());
        buf.extend(std::iter::repeat_n(0u8, 4 * FC0_OUT + FC0_OUT * L1));
        buf.extend(std::iter::repeat_n(0u8, 4 * FC1_OUT + FC1_OUT * 64));
        buf.extend(std::iter::repeat_n(0u8, 4 + FC0_OUT * 2 + FC1_OUT * 2));
    }
    buf
}

#[test]
fn init_is_callable() {
    let mut state = new_state();
    init(&mut state, &vec![None; 10]);
    assert!(!maintenance_active(&state));
}

#[test]
fn first_default_that_loads_is_used() {
    let mut state = new_state();
    let mut files: Vec<Option<Vec<u8>>> = vec![None; 10];
    files[1] = Some(vec![1, 2, 3]);
    assert!(!try_load_default(&mut state, &files));
    files[4] = Some(zero_network_file());
    assert_eq!(try_load_default_path(&mut state, &files), Some("whale_big.nnue"));
    assert!(maintenance_active(&state));
    assert_eq!(state.generation, 1);
    assert_eq!(active_model_name(&state, Some("whale_big")), "whale_big");
    assert_eq!(try_load_default_path(&mut state, &files), Some("active"));
    assert_eq!(state.generation, 1);
}

#[test]
fn networks_load_and_unload() {
    let mut state = new_state();
    assert_eq!(active_model_name(&state, None), "embedded");
    assert!(load_net(&mut state, "a.nnue", Some(&[0, 1])).is_err());
    assert!(active_loaded_net(&state).is_none());
    assert_eq!(state.generation, 0);
    load_net(&mut state, "a.nnue", Some(&zero_network_file())).unwrap();
    assert_eq!(active_loaded_net(&state).unwrap().net.l1, L1);
    assert_eq!(active_model_name(&state, None), "a.nnue");
    unload_nets(&mut state);
    assert!(!maintenance_active(&state));
    assert_eq!(state.generation, 2);
}

#[test]
fn file_options_are_understood() {
    let absent = [false; 4];
    assert!(matches!(eval_file_action("bogus", "x", &absent), EvalFileAction::Unknown));
    assert!(matches!(eval_file_action("evalfilesmall", "x", &absent), EvalFileAction::Ignored));
    assert!(matches!(eval_file_action("EvalFile", "<empty>", &absent), EvalFileAction::Deactivate));
    assert!(matches!(eval_file_action("Model", " Embedded ", &absent), EvalFileAction::Deactivate));
    let candidates = model_candidates("whale_big");
    assert_eq!(resolve_model_path("whale_big", &absent), Some(String::from("whale_big")));
    let present = [false, true, false, false];
    assert_eq!(resolve_model_path("whale_big", &present), Some(candidates[1].clone()));
    match eval_file_action("model", "whale_big", &present) {
        EvalFileAction::Activate(path) => assert_eq!(path, candidates[1]),
        _ => panic!("a path activates"),
    }
    let mut state = new_state();
    let off = EvalFileAction::Deactivate;
    assert_eq!(set_eval_file(&mut state, off, None), Ok("SFNNv16 network deactivated"));
    assert_eq!(
        set_eval_file(&mut state, EvalFileAction::Unknown, None),
        Err("unknown eval file option")
    );
    let on = EvalFileAction::Activate(String::from("missing.nnue"));
    assert!(set_eval_file(&mut state, on, None).is_err());
    assert_eq!(active_model_name(&state, None), "missing.nnue");
}

#[test]
fn dual_net_is_a_switch() {
    let mut state = new_state();
    assert!(is_dual_net_enabled(&state));
    set_dual_net(&mut state, false);
    assert!(!is_dual_net_enabled(&state));
}
