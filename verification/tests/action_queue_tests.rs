use ruffle::action_queue::{ActionQueue, ActionType};

type Queue = ActionQueue<u32, u32, i32>;

fn normal(tag: u8) -> ActionType<u32, i32> {
    ActionType::Normal { bytecode: vec![tag] }
}

fn clip_of(q: &mut Queue) -> Option<u32> {
    q.pop_action().map(|a| a.clip)
}

#[test]
fn new_queue_is_empty() {
    let mut q = Queue::new();
    assert!(q.pop_action().is_none());
    let mut d: Queue = Default::default();
    assert!(d.pop_action().is_none());
}

#[test]
fn queue_then_pop_gives_the_action_back() {
    let mut q = Queue::new();
    q.queue_actions(7, normal(1), true);
    let a = q.pop_action().expect("an action");
    assert_eq!(a.clip, 7);
    assert!(a.is_unload);
    match a.action_type {
        ActionType::Normal { bytecode } => assert_eq!(bytecode, vec![1]),
        _ => panic!("wrong action type"),
    }
    assert!(q.pop_action().is_none());
}

#[test]
fn same_priority_is_first_in_first_out() {
    let mut q = Queue::new();
    for clip in 0..5 {
        q.queue_actions(clip, normal(clip as u8), false);
    }
    for clip in 0..5 {
        assert_eq!(clip_of(&mut q), Some(clip));
    }
    assert_eq!(clip_of(&mut q), None);
}

#[test]
fn initialize_before_construct_before_others() {
    let mut q = Queue::new();
    q.queue_actions(1, normal(0), false);
    q.queue_actions(2, ActionType::Construct { constructor: None, events: vec![] }, false);
    q.queue_actions(3, ActionType::Initialize { bytecode: vec![] }, false);
    q.queue_actions(4, ActionType::Method { object: 9, name: "onEnterFrame", args: vec![1] }, false);
    q.queue_actions(5, ActionType::Initialize { bytecode: vec![] }, false);
    q.queue_actions(
        6,
        ActionType::NotifyListeners { listener: "Stage", method: "onResize", args: vec![] },
        false,
    );
    q.queue_actions(7, ActionType::Callable2 { callable: 1, reciever: Some(2), args: vec![] }, false);
    let order: Vec<u32> = std::iter::from_fn(|| clip_of(&mut q)).collect();
    assert_eq!(order, vec![3, 5, 2, 1, 4, 6, 7]);
}

#[test]
fn queueing_while_draining_respects_priority() {
    let mut q = Queue::new();
    q.queue_actions(1, normal(0), false);
    q.queue_actions(2, normal(0), false);
    assert_eq!(clip_of(&mut q), Some(1));
    q.queue_actions(3, ActionType::Construct { constructor: Some(4), events: vec![vec![1]] }, false);
    assert_eq!(clip_of(&mut q), Some(3));
    assert_eq!(clip_of(&mut q), Some(2));
    assert_eq!(clip_of(&mut q), None);
}

#[test]
fn draining_a_mixed_queue_gives_each_action_once_by_priority() {
    let mut q = Queue::new();
    let kinds = [0u8, 2, 1, 0, 2, 0, 1, 2, 0, 1];
    for (clip, &k) in kinds.iter().enumerate() {
        let action = match k {
            2 => ActionType::Initialize { bytecode: vec![] },
            1 => ActionType::Construct { constructor: None, events: vec![] },
            _ => normal(0),
        };
        q.queue_actions(clip as u32, action, false);
    }
    let mut popped = Vec::new();
    for _ in 0..kinds.len() {
        popped.push(clip_of(&mut q).expect("an action"));
    }
    assert_eq!(popped, vec![1, 4, 7, 2, 6, 9, 0, 3, 5, 8]);
    assert!(q.pop_action().is_none());
}
