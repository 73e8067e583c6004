use matserve::matrix::count_assign_row_sums;
use matserve::matrix::Matrix;
use matserve::protocol::Phase;
use matserve::protocol::Request;
use matserve::protocol::Response;
use matserve::protocol::Session;
use matserve::protocol::SessionAction;

fn square(rows: Vec<Vec<i32>>) -> Matrix {
    Matrix::from_rows(rows).expect("rows must form a square matrix")
}

fn data_payload(thread_num: u32, m: &Matrix) -> (u32, Vec<u8>) {
    (thread_num, m.serialize())
}

#[test]
fn request_tokens_parse() {
    assert_eq!(Request::from_str("SYN"), Some(Request::Syn));
    assert_eq!(Request::from_str("DAT"), Some(Request::Data));
    assert_eq!(Request::from_str("STA"), Some(Request::Start));
    assert_eq!(Request::from_str("POL"), Some(Request::Poll));
    assert_eq!(Request::from_str("NOP"), None);
    assert_eq!(Request::from_str(""), None);
    assert_eq!(Request::from_str("SYNX"), None);
    assert_eq!(Request::from_str("syn"), None);
}

#[test]
fn response_tokens() {
    assert_eq!(Response::SynAck.as_str(), "SYN");
    assert_eq!(Response::DataAck.as_str(), "DAT");
    assert_eq!(Response::StartAck.as_str(), "STA");
    assert_eq!(Response::NotYet.as_str(), "NOT");
    assert_eq!(Response::Done.as_str(), "DON");
    assert_eq!(Response::IncorrectMethod.as_str(), "INM");
    assert_eq!(Response::IncorrectData.as_str(), "IND");
}

#[test]
fn out_of_order_command_is_rejected_without_advancing() {
    let mut s = Session::new(1);
    // POL before SYN: IncorrectMethod, state unchanged
    let act = s.on_command(Some(Request::Poll));
    assert_eq!(act, SessionAction::Reply(Response::IncorrectMethod));
    assert_eq!(s.get_phase(), Phase::AwaitSyn);
    // garbage token: same
    let act = s.on_command(None);
    assert_eq!(act, SessionAction::Reply(Response::IncorrectMethod));
    assert_eq!(s.get_phase(), Phase::AwaitSyn);
    // a correctly ordered SYN still succeeds afterwards
    let act = s.on_command(Some(Request::Syn));
    assert_eq!(act, SessionAction::Reply(Response::SynAck));
    assert_eq!(s.get_phase(), Phase::AwaitData);
}

#[test]
fn wrong_command_at_each_handshake_step_is_non_fatal() {
    let mut s = Session::new(1);
    s.on_command(Some(Request::Syn));
    // waiting for DAT: a stray POL is rejected, DAT still accepted
    assert_eq!(
        s.on_command(Some(Request::Poll)),
        SessionAction::Reply(Response::IncorrectMethod)
    );
    assert_eq!(s.get_phase(), Phase::AwaitData);
    assert_eq!(s.on_command(Some(Request::Data)), SessionAction::ReadData);
    let m = square(vec![vec![1]]);
    let (tn, payload) = data_payload(1, &m);
    assert_eq!(s.on_data(tn, &payload), Response::DataAck);
    // waiting for STA: a stray SYN is rejected, STA still accepted
    assert_eq!(
        s.on_command(Some(Request::Syn)),
        SessionAction::Reply(Response::IncorrectMethod)
    );
    assert_eq!(s.get_phase(), Phase::AwaitStart);
    assert_eq!(s.on_command(Some(Request::Start)), SessionAction::Reply(Response::StartAck));
    // polling: any non-POL command is rejected
    assert_eq!(
        s.on_command(Some(Request::Data)),
        SessionAction::Reply(Response::IncorrectMethod)
    );
    assert_eq!(s.get_phase(), Phase::Polling);
}

#[test]
fn bad_payload_is_fatal() {
    let mut s = Session::new(1);
    s.on_command(Some(Request::Syn));
    assert_eq!(s.on_command(Some(Request::Data)), SessionAction::ReadData);
    // truncated payload: declared dim 2 but too few bytes
    let resp = s.on_data(1, &[0, 0, 0, 2, 0, 0]);
    assert_eq!(resp, Response::IncorrectData);
    assert_eq!(s.get_phase(), Phase::Failed);
}

#[test]
fn zero_workers_is_rejected() {
    let mut s = Session::new(1);
    s.on_command(Some(Request::Syn));
    s.on_command(Some(Request::Data));
    let m = square(vec![vec![1, 2], vec![3, 4]]);
    let (tn, payload) = data_payload(0, &m);
    let resp = s.on_data(tn, &payload);
    assert_eq!(resp, Response::IncorrectData);
    assert_eq!(s.get_phase(), Phase::Failed);
}

#[test]
fn more_workers_than_rows_is_rejected() {
    let mut s = Session::new(1);
    s.on_command(Some(Request::Syn));
    s.on_command(Some(Request::Data));
    let m = square(vec![vec![1, 2], vec![3, 4]]);
    let (tn, payload) = data_payload(3, &m);
    let resp = s.on_data(tn, &payload);
    assert_eq!(resp, Response::IncorrectData);
    assert_eq!(s.get_phase(), Phase::Failed);
}

#[test]
fn end_to_end_session() {
    let mut s = Session::new(7);
    assert_eq!(s.get_id(), 7);

    // SYN
    assert_eq!(s.on_command(Some(Request::Syn)), SessionAction::Reply(Response::SynAck));

    // DAT with thread_num = 2 and a 4x4 matrix
    assert_eq!(s.on_command(Some(Request::Data)), SessionAction::ReadData);
    let m = square(vec![
        vec![1, 2, 3, 4],
        vec![5, 6, 7, 8],
        vec![9, 10, 11, 12],
        vec![13, 14, 15, 16],
    ]);
    let (tn, payload) = data_payload(2, &m);
    assert_eq!(s.on_data(tn, &payload), Response::DataAck);
    assert_eq!(s.get_phase(), Phase::AwaitStart);
    assert_eq!(s.get_thread_num(), 2);

    // STA
    assert_eq!(s.on_command(Some(Request::Start)), SessionAction::Reply(Response::StartAck));
    assert_eq!(s.get_phase(), Phase::Polling);

    // a poll before the workers finish is answered NotYet
    assert_eq!(s.on_command(Some(Request::Poll)), SessionAction::Reply(Response::NotYet));

    // the workers run
    let mut slices = s.take_work().expect("slices are handed out once");
    assert_eq!(slices.len(), 2);
    for slice in slices.iter_mut() {
        count_assign_row_sums(slice);
    }
    for slice in &slices {
        assert!(s.worker_done(slice));
    }

    // polling until DON
    let mut done = false;
    for _ in 0..3 {
        match s.on_command(Some(Request::Poll)) {
            SessionAction::Reply(Response::Done) => {
                done = true;
                break;
            },
            SessionAction::Reply(Response::NotYet) => {},
            other => panic!("unexpected action {:?}", other),
        }
    }
    assert!(done);
    assert_eq!(s.get_phase(), Phase::Finished);

    // the streamed result has the exact wire size and decodes to dim 4
    let bytes = s.result_bytes().expect("finished session streams the result");
    assert_eq!(bytes.len(), Matrix::serialized_size(4));
    let result = Matrix::deserialize(&bytes).expect("result must decode");
    assert_eq!(result.get_dim(), 4);
    // the row sums stand on the diagonal
    assert_eq!(result.get(0, 0), 10);
    assert_eq!(result.get(1, 1), 26);
    assert_eq!(result.get(2, 2), 42);
    assert_eq!(result.get(3, 3), 58);
    // untouched elements are intact
    assert_eq!(result.get(0, 1), 2);
    assert_eq!(result.get(3, 0), 13);
}

#[test]
fn completion_counter_never_exceeds_thread_num() {
    let mut s = Session::new(1);
    s.on_command(Some(Request::Syn));
    s.on_command(Some(Request::Data));
    let m = square(vec![vec![1, 1], vec![2, 2]]);
    let (tn, payload) = data_payload(2, &m);
    s.on_data(tn, &payload);
    s.on_command(Some(Request::Start));
    let mut slices = s.take_work().unwrap();
    assert_eq!(s.get_completed(), 0);
    for slice in slices.iter_mut() {
        count_assign_row_sums(slice);
    }
    assert!(s.worker_done(&slices[0]));
    assert_eq!(s.get_completed(), 1);
    assert!(s.worker_done(&slices[1]));
    assert_eq!(s.get_completed(), 2);
    // the counter reached thread_num exactly once; further reports are
    // rejected and the counter does not move
    assert!(!s.worker_done(&slices[1]));
    assert_eq!(s.get_completed(), 2);
}

#[test]
fn take_work_is_handed_out_only_once() {
    let mut s = Session::new(1);
    assert!(s.take_work().is_none());
    s.on_command(Some(Request::Syn));
    s.on_command(Some(Request::Data));
    let m = square(vec![vec![1]]);
    let (tn, payload) = data_payload(1, &m);
    s.on_data(tn, &payload);
    s.on_command(Some(Request::Start));
    assert!(s.take_work().is_some());
    assert!(s.take_work().is_none());
}

#[test]
fn worker_done_rejects_a_slice_of_the_wrong_shape() {
    let mut s = Session::new(1);
    s.on_command(Some(Request::Syn));
    s.on_command(Some(Request::Data));
    let m = square(vec![vec![1, 2], vec![3, 4]]);
    let (tn, payload) = data_payload(1, &m);
    s.on_data(tn, &payload);
    s.on_command(Some(Request::Start));
    let _slices = s.take_work().unwrap();
    // a slice cut from a 3x3 matrix does not fit a 2x2 result
    let mut other = Matrix::random(3);
    let foreign = other.split(1);
    assert!(!s.worker_done(&foreign[0]));
    assert_eq!(s.get_completed(), 0);
}

#[test]
fn result_bytes_only_after_done() {
    let s = Session::new(1);
    assert!(s.result_bytes().is_none());
}
