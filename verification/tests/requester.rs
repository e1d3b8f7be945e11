use audio_server::requester::{ControlFlow, Requester};

#[test]
fn output_is_filled_from_engine_buffers_and_leftovers_kept() {
    let mut requester: Requester<i32> = Requester::new(4, 0);
    assert_eq!(requester.num_frames(), 4);
    let mut output = vec![9; 6];

    let buffer = requester.begin_fill(&mut output, 0).expect("a buffer is requested");
    assert_eq!(buffer, vec![0, 0, 0, 0]);
    assert_eq!(output, vec![0; 6]);

    // The engine writes the first buffer: all four frames fit.
    let buffer = requester
        .receive_frames(&mut output, vec![1, 2, 3, 4], 0)
        .expect("another buffer is requested");
    assert_eq!(buffer, vec![0, 0, 0, 0]);
    assert_eq!(output, vec![1, 2, 3, 4, 0, 0]);

    // Only two frames of the second buffer fit; the rest stays pending.
    assert!(requester.receive_frames(&mut output, vec![5, 6, 7, 8], 0).is_none());
    assert_eq!(output, vec![1, 2, 3, 4, 5, 6]);

    // The next output is served from the pending frames first.
    let mut small = vec![9; 1];
    assert!(requester.begin_fill(&mut small, 0).is_none());
    assert_eq!(small, vec![7]);

    let mut next = vec![9; 3];
    let buffer = requester.begin_fill(&mut next, 0).expect("a buffer is requested");
    assert_eq!(buffer.len(), 4);
    assert_eq!(next, vec![8, 0, 0]);
    assert!(requester.receive_frames(&mut next, vec![20, 21, 22, 23], 0).is_none());
    assert_eq!(next, vec![8, 20, 21]);

    // Exactly the pending frames: nothing is requested.
    let mut exact = vec![9; 2];
    assert!(requester.begin_fill(&mut exact, 0).is_none());
    assert_eq!(exact, vec![22, 23]);
}

#[test]
fn empty_output_asks_nothing() {
    let mut requester: Requester<i32> = Requester::new(2, 0);
    let mut output: Vec<i32> = vec![];
    assert!(requester.begin_fill(&mut output, 0).is_none());
}

#[test]
fn lost_engine_completes() {
    let mut requester: Requester<i32> = Requester::new(2, 0);
    let mut output = vec![1; 3];
    assert!(requester.begin_fill(&mut output, 0).is_some());
    assert_eq!(requester.abandon(), ControlFlow::Complete);
    // A new fill can start afresh.
    assert!(requester.begin_fill(&mut output, 0).is_some());
}

#[test]
fn frames_reach_outputs_in_order_over_many_fills() {
    // The engine answers its k-th request with frames 4k, 4k + 1, 4k + 2, 4k + 3.
    let mut requester: Requester<i32> = Requester::new(4, -1);
    let mut next: i32 = 0;
    let mut delivered: Vec<i32> = Vec::new();
    for len in [3usize, 5, 1, 8, 2, 7, 4] {
        let mut output = vec![-9; len];
        let mut request = requester.begin_fill(&mut output, -1);
        while let Some(buffer) = request {
            assert_eq!(buffer.len(), 4);
            let frames: Vec<i32> = (next..next + 4).collect();
            next += 4;
            request = requester.receive_frames(&mut output, frames, -1);
        }
        delivered.extend(output);
    }
    let expected: Vec<i32> = (0..delivered.len() as i32).collect();
    assert_eq!(delivered, expected);
}
