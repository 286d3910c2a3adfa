use fyrebird::stage::{GraphError, Rate, StageGraph};

fn names(v: &[&str]) -> Vec<String> {
    v.iter().map(|s| s.to_string()).collect()
}

#[test]
fn fan_out_from_one_root() {
    let mut g: StageGraph<u8> = StageGraph::new();
    g.add_stage("A".to_string(), vec![], Rate::Fixed, 0).unwrap();
    g.add_stage("B".to_string(), names(&["A"]), Rate::Fixed, 1).unwrap();
    g.add_stage("C".to_string(), names(&["A"]), Rate::Fixed, 2).unwrap();
    let order = g.build().unwrap();
    assert_eq!(order, vec![0, 1, 2]);
}

#[test]
fn dependencies_registered_later_come_first() {
    let mut g: StageGraph<u8> = StageGraph::new();
    g.add_stage("render".to_string(), names(&["physics"]), Rate::Variable, 0).unwrap();
    g.add_stage("input".to_string(), vec![], Rate::Variable, 1).unwrap();
    g.add_stage("physics".to_string(), names(&["input"]), Rate::Fixed, 2).unwrap();
    assert_eq!(g.build().unwrap(), vec![1, 2, 0]);
}

#[test]
fn ties_break_by_registration() {
    let mut g: StageGraph<u8> = StageGraph::new();
    g.add_stage("x".to_string(), names(&["z"]), Rate::Fixed, 0).unwrap();
    g.add_stage("y".to_string(), vec![], Rate::Fixed, 0).unwrap();
    g.add_stage("z".to_string(), vec![], Rate::Fixed, 0).unwrap();
    assert_eq!(g.build().unwrap(), vec![1, 2, 0]);
}

#[test]
fn repeated_builds_agree() {
    let mut g: StageGraph<u8> = StageGraph::new();
    g.add_stage("a".to_string(), names(&["c"]), Rate::Fixed, 0).unwrap();
    g.add_stage("b".to_string(), vec![], Rate::Fixed, 0).unwrap();
    g.add_stage("c".to_string(), names(&["b"]), Rate::Fixed, 0).unwrap();
    let first = g.build().unwrap();
    for _ in 0..5 {
        assert_eq!(g.build().unwrap(), first);
    }
}

#[test]
fn duplicate_name_is_refused() {
    let mut g: StageGraph<u8> = StageGraph::new();
    g.add_stage("a".to_string(), vec![], Rate::Fixed, 0).unwrap();
    match g.add_stage("a".to_string(), vec![], Rate::Variable, 1) {
        Err(GraphError::DuplicateStage { name }) => assert_eq!(name, "a"),
        other => panic!("unexpected {:?}", other),
    }
    assert_eq!(g.len(), 1);
    assert_eq!(g.rate(0), Rate::Fixed);
}

#[test]
fn unknown_dependency_is_reported() {
    let mut g: StageGraph<u8> = StageGraph::new();
    g.add_stage("a".to_string(), names(&["ghost"]), Rate::Fixed, 0).unwrap();
    match g.build() {
        Err(GraphError::UnknownDependency { stage, dependency }) => {
            assert_eq!(stage, "a");
            assert_eq!(dependency, "ghost");
        }
        other => panic!("unexpected {:?}", other),
    }
}

#[test]
fn cycle_names_the_stuck_stages() {
    let mut g: StageGraph<u8> = StageGraph::new();
    g.add_stage("free".to_string(), vec![], Rate::Fixed, 0).unwrap();
    g.add_stage("p".to_string(), names(&["q"]), Rate::Fixed, 0).unwrap();
    g.add_stage("q".to_string(), names(&["p"]), Rate::Fixed, 0).unwrap();
    g.add_stage("after".to_string(), names(&["q", "free"]), Rate::Fixed, 0).unwrap();
    match g.build() {
        Err(GraphError::CyclicDependency { stages }) => {
            assert_eq!(stages, names(&["p", "q"]));
        }
        other => panic!("unexpected {:?}", other),
    }
}

#[test]
fn stage_hanging_off_a_cycle_is_not_named() {
    let mut g: StageGraph<u8> = StageGraph::new();
    g.add_stage("A".to_string(), names(&["B"]), Rate::Fixed, 0).unwrap();
    g.add_stage("B".to_string(), names(&["A"]), Rate::Fixed, 0).unwrap();
    g.add_stage("C".to_string(), names(&["A"]), Rate::Fixed, 0).unwrap();
    match g.build() {
        Err(GraphError::CyclicDependency { stages }) => assert_eq!(stages, names(&["A", "B"])),
        other => panic!("unexpected {:?}", other),
    }
}

#[test]
fn longest_cycle_is_found() {
    let mut g: StageGraph<u8> = StageGraph::new();
    g.add_stage("a".to_string(), names(&["b"]), Rate::Fixed, 0).unwrap();
    g.add_stage("b".to_string(), names(&["c"]), Rate::Fixed, 0).unwrap();
    g.add_stage("c".to_string(), names(&["d"]), Rate::Fixed, 0).unwrap();
    g.add_stage("d".to_string(), names(&["a"]), Rate::Fixed, 0).unwrap();
    match g.build() {
        Err(GraphError::CyclicDependency { stages }) => assert_eq!(stages, names(&["a", "b", "c", "d"])),
        other => panic!("unexpected {:?}", other),
    }
}

#[test]
fn self_dependency_is_a_cycle() {
    let mut g: StageGraph<u8> = StageGraph::new();
    g.add_stage("s".to_string(), names(&["s"]), Rate::Fixed, 0).unwrap();
    match g.build() {
        Err(GraphError::CyclicDependency { stages }) => assert_eq!(stages, names(&["s"])),
        other => panic!("unexpected {:?}", other),
    }
}

#[test]
fn empty_graph_has_empty_order() {
    let g: StageGraph<u8> = StageGraph::new();
    assert_eq!(g.build().unwrap(), Vec::<usize>::new());
    assert_eq!(g.find(&"x".to_string()), None);
}
