use talktosc::apdus::APDU;
use talktosc::exchange::{Exchange, Step};

fn sent(step: Step) -> Vec<u8> {
    match step {
        Step::Send(p) => p,
        Step::Done(r) => panic!("exchange ended early with {:?}", r),
    }
}

fn done(step: Step) -> Vec<u8> {
    match step {
        Step::Done(r) => r,
        Step::Send(p) => panic!("exchange goes on with {:?}", p),
    }
}

#[test]
fn chained_packets_are_sent_in_order() {
    let apdu = APDU::new(0x00, 0x2A, 0x80, 0x86, Some(vec![0x42; 300]));
    let mut ex = Exchange::new(&apdu);
    assert_eq!(sent(ex.start()), apdu.iapdus[0]);
    assert_eq!(sent(ex.on_reply(vec![0x90, 0x00])), apdu.iapdus[1]);
    assert_eq!(done(ex.on_reply(vec![0x01, 0x90, 0x00])), vec![0x01, 0x90, 0x00]);
}

#[test]
fn failed_intermediate_reply_ends_the_exchange() {
    let apdu = APDU::new(0x00, 0x2A, 0x80, 0x86, Some(vec![0x42; 300]));
    let mut ex = Exchange::new(&apdu);
    sent(ex.start());
    assert_eq!(done(ex.on_reply(vec![0x6A, 0x80])), vec![0x6A, 0x80]);
}

#[test]
fn single_packet_reply_is_final_whatever_it_says() {
    let apdu = APDU::new(0x00, 0xCA, 0x00, 0x6E, None);
    let mut ex = Exchange::new(&apdu);
    assert_eq!(sent(ex.start()), vec![0x00, 0xCA, 0x00, 0x6E, 0x00]);
    assert_eq!(done(ex.on_reply(vec![0x61, 0x10])), vec![0x61, 0x10]);
}

#[test]
fn command_without_packets_ends_at_once() {
    let apdu = APDU { cla: 0, ins: 0, p1: 0, p2: 0, data: vec![], iapdus: vec![] };
    let mut ex = Exchange::new(&apdu);
    assert!(done(ex.start()).is_empty());
}
