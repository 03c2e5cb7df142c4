use std::collections::VecDeque;

use protosocket::efa::driver::{
    classify_received, recv_action, Out, OutboundSource, OutboundState, Polled, PostError, Received, RecvAction, SendPoster, ServiceOutcome,
    MAX_PAYLOAD, OP_DATA, OP_FIN, SEND_POOL,
};
use protosocket::efa::error::EfaError;

/// Outbound work handed out in order; `None` closes the channel.
struct Script {
    items: VecDeque<Polled<Out>>,
    freed: usize,
}

impl Script {
    fn new(items: Vec<Polled<Out>>) -> Self {
        Script { items: items.into_iter().collect(), freed: 0 }
    }
}

impl OutboundSource for Script {
    fn poll_outbound(&mut self) -> Polled<Out> {
        self.items.pop_front().unwrap_or(Polled::Pending)
    }

    fn slot_freed(&mut self) {
        self.freed += 1;
    }
}

/// Records the frames posted; refuses with `Again` after `accept` posts.
struct Recorder {
    posts: Vec<(usize, Vec<u8>)>,
    accept: usize,
    fail: bool,
}

impl Recorder {
    fn new(accept: usize) -> Self {
        Recorder { posts: Vec::new(), accept, fail: false }
    }
}

impl SendPoster for Recorder {
    fn post_send(&mut self, index: usize, memory: &[u8], len: usize) -> Result<(), PostError> {
        if self.fail {
            return Err(PostError::Failed(EfaError::Bootstrap("gone".to_string())));
        }
        if self.posts.len() >= self.accept {
            return Err(PostError::Again);
        }
        self.posts.push((index, memory[..len].to_vec()));
        Ok(())
    }
}

#[test]
fn a_fresh_connection_has_idle_buffers() {
    let state = OutboundState::new();
    for index in 0..SEND_POOL {
        assert!(!state.slot(index).busy());
        assert!(state.slot(index).memory().iter().all(|b| *b == 0));
    }
    assert!(!state.is_closed());
}

#[test]
fn nothing_to_plan_without_work() {
    let mut state = OutboundState::new();
    assert!(state.plan_send().is_none());
}

#[test]
fn data_then_fin_are_framed_into_free_buffers() {
    let mut state = OutboundState::new();
    let mut source = Script::new(vec![
        Polled::Ready(Some(Out::Data(vec![1, 2, 3]))),
        Polled::Ready(Some(Out::Fin)),
    ]);
    let mut poster = Recorder::new(usize::MAX);
    let (outcome, failure) = state.service_outbound(&mut source, &mut poster);
    assert_eq!(outcome, ServiceOutcome::DidWork);
    assert!(failure.is_none());
    assert_eq!(poster.posts, vec![(0, vec![OP_DATA, 1, 2, 3]), (1, vec![OP_FIN])]);
    assert_eq!(source.freed, 2);
    assert!(state.slot(0).busy());
    assert!(state.slot(1).busy());
    state.complete_send(0);
    state.complete_send(1);
    assert!(!state.slot(0).busy());
}

#[test]
fn a_closed_stream_retires_once_drained() {
    let mut state = OutboundState::new();
    let mut source = Script::new(vec![Polled::Ready(Some(Out::Data(vec![7]))), Polled::Ready(None)]);
    let mut poster = Recorder::new(usize::MAX);
    let (outcome, _) = state.service_outbound(&mut source, &mut poster);
    // The data went out; it is still in flight.
    assert_eq!(outcome, ServiceOutcome::DidWork);
    assert!(state.is_closed());
    state.complete_send(0);
    let (outcome, _) = state.service_outbound(&mut source, &mut poster);
    assert_eq!(outcome, ServiceOutcome::Retire);
}

#[test]
fn idle_when_nothing_happens() {
    let mut state = OutboundState::new();
    let mut source = Script::new(vec![]);
    let mut poster = Recorder::new(usize::MAX);
    let (outcome, failure) = state.service_outbound(&mut source, &mut poster);
    assert_eq!(outcome, ServiceOutcome::Idle);
    assert!(failure.is_none());
    assert!(poster.posts.is_empty());
}

#[test]
fn large_chunks_are_split_across_messages() {
    let mut state = OutboundState::new();
    let chunk: Vec<u8> = (0..(MAX_PAYLOAD + 5)).map(|i| (i % 251) as u8).collect();
    let mut source = Script::new(vec![Polled::Ready(Some(Out::Data(chunk.clone())))]);
    let mut poster = Recorder::new(usize::MAX);
    state.service_outbound(&mut source, &mut poster);
    assert_eq!(poster.posts.len(), 2);
    assert_eq!(poster.posts[0].1.len(), MAX_PAYLOAD + 1);
    assert_eq!(poster.posts[0].1[0], OP_DATA);
    assert_eq!(&poster.posts[0].1[1..], &chunk[..MAX_PAYLOAD]);
    assert_eq!(poster.posts[1].1, [&[OP_DATA][..], &chunk[MAX_PAYLOAD..]].concat());
}

#[test]
fn backpressure_keeps_the_chunk_for_later() {
    let mut state = OutboundState::new();
    let mut source = Script::new(vec![Polled::Ready(Some(Out::Data(vec![4, 5])))]);
    let mut poster = Recorder::new(0);
    state.service_outbound(&mut source, &mut poster);
    assert!(poster.posts.is_empty());
    assert!(!state.slot(0).busy());
    poster.accept = usize::MAX;
    state.service_outbound(&mut source, &mut poster);
    assert_eq!(poster.posts, vec![(0, vec![OP_DATA, 4, 5])]);
}

#[test]
fn a_failed_post_is_reported() {
    let mut state = OutboundState::new();
    let mut source = Script::new(vec![Polled::Ready(Some(Out::Data(vec![4])))]);
    let mut poster = Recorder::new(usize::MAX);
    poster.fail = true;
    let (_, failure) = state.service_outbound(&mut source, &mut poster);
    assert!(matches!(failure, Some(EfaError::Bootstrap(_))));
}

#[test]
fn all_buffers_busy_stops_posting() {
    let mut state = OutboundState::new();
    let items = (0..(SEND_POOL + 2)).map(|i| Polled::Ready(Some(Out::Data(vec![i as u8])))).collect();
    let mut source = Script::new(items);
    let mut poster = Recorder::new(usize::MAX);
    state.service_outbound(&mut source, &mut poster);
    assert_eq!(poster.posts.len(), SEND_POOL);
    let (_, _) = state.service_outbound(&mut source, &mut poster);
    assert_eq!(poster.posts.len(), SEND_POOL);
    state.complete_send(3);
    state.service_outbound(&mut source, &mut poster);
    assert_eq!(poster.posts.len(), SEND_POOL + 1);
    assert_eq!(poster.posts[SEND_POOL], (3, vec![OP_DATA, SEND_POOL as u8]));
}

#[test]
fn received_frames_are_classified() {
    let memory = [OP_DATA, 9, 8, 7, 0];
    assert!(matches!(classify_received(&memory, 0), Received::Empty));
    match classify_received(&memory, 4) {
        Received::Data(bytes) => assert_eq!(bytes, vec![9, 8, 7]),
        other => panic!("unexpected {other:?}"),
    }
    match classify_received(&memory, 1) {
        Received::Data(bytes) => assert!(bytes.is_empty()),
        other => panic!("unexpected {other:?}"),
    }
    assert!(matches!(classify_received(&[OP_FIN, 3], 2), Received::Fin));
}

#[test]
fn completed_receives_are_routed() {
    assert!(matches!(recv_action(Received::Empty, true), RecvAction::Repost));
    assert!(matches!(recv_action(Received::Fin, true), RecvAction::EndOfStream));
    assert!(matches!(recv_action(Received::Fin, false), RecvAction::EndOfStream));
    match recv_action(Received::Data(vec![1, 2]), true) {
        RecvAction::Deliver(bytes) => assert_eq!(bytes, vec![1, 2]),
        other => panic!("unexpected {other:?}"),
    }
    assert!(matches!(recv_action(Received::Data(vec![1]), false), RecvAction::Discard));
}

#[test]
fn posted_payloads_reassemble_the_stream_in_order() {
    let mut state = OutboundState::new();
    let first: Vec<u8> = (0..(MAX_PAYLOAD * 2 + 7)).map(|i| (i % 253) as u8).collect();
    let second = vec![9u8, 8, 7];
    let mut source = Script::new(vec![
        Polled::Ready(Some(Out::Data(first.clone()))),
        Polled::Ready(Some(Out::Data(Vec::new()))),
        Polled::Ready(Some(Out::Data(second.clone()))),
        Polled::Ready(Some(Out::Fin)),
        Polled::Ready(None),
    ]);
    let mut poster = Recorder::new(usize::MAX);
    let mut rounds = 0;
    loop {
        let (outcome, failure) = state.service_outbound(&mut source, &mut poster);
        assert!(failure.is_none());
        for index in 0..SEND_POOL {
            if state.slot(index).busy() {
                state.complete_send(index);
            }
        }
        rounds += 1;
        if outcome == ServiceOutcome::Retire || rounds > 10 {
            break;
        }
    }
    let mut stream = Vec::new();
    let mut saw_fin = false;
    for (_, frame) in &poster.posts {
        assert!(!saw_fin, "nothing follows the FIN");
        match classify_received(frame, frame.len()) {
            Received::Data(bytes) => stream.extend_from_slice(&bytes),
            Received::Fin => saw_fin = true,
            Received::Empty => panic!("no empty frames are posted"),
        }
    }
    assert!(saw_fin);
    assert_eq!(stream, [first, second].concat());
}

#[test]
fn the_fabric_answer_decides_what_a_post_did() {
    let mut state = OutboundState::new();
    let mut source = Script::new(vec![Polled::Ready(Some(Out::Data(vec![4, 5])))]);
    let mut refusing = Recorder::new(0);
    let (outcome, failure) = state.service_outbound(&mut source, &mut refusing);
    assert_eq!(outcome, ServiceOutcome::DidWork);
    assert!(failure.is_none());
    assert!(refusing.posts.is_empty());
    assert!(!state.slot(0).busy());
    let plan = state.plan_send().expect("the chunk is still to send");
    assert!(state.finish_post(&plan, Err(PostError::Again)).is_none());
    assert!(!state.slot(plan.index).busy());
    assert!(state.finish_post(&plan, Ok(())).is_none());
    assert!(state.slot(plan.index).busy());
    assert!(state.plan_send().is_none());
}
