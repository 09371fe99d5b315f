use talktosc::apdus::{
    create_apdu_for_algo_attributes, create_apdu_for_decryption, create_apdu_for_reading,
    create_apdu_get_aid, create_apdu_get_application_data, create_apdu_get_url,
    create_apdu_personal_information, create_apdu_select_openpgp,
    create_apdu_verify_pw1_for_others, create_apdu_verify_pw1_for_sign, create_apdu_verify_pw3,
    APDU,
};

fn payload(len: usize) -> Vec<u8> {
    (0..len).map(|i| (i % 251) as u8).collect()
}

fn joined(apdu: &APDU) -> Vec<u8> {
    let mut out = Vec::new();
    for p in &apdu.iapdus {
        out.extend_from_slice(&p[5..]);
    }
    out
}

#[test]
fn empty_payload_gives_one_packet() {
    let a = APDU::new(0x00, 0xCA, 0x00, 0x4F, None);
    assert_eq!(a.iapdus, vec![vec![0x00, 0xCA, 0x00, 0x4F, 0x00]]);
    assert!(a.data.is_empty());
}

#[test]
fn short_payload_gives_one_packet() {
    let a = APDU::new(0x00, 0x20, 0x00, 0x81, Some(vec![0x31, 0x32, 0x33]));
    assert_eq!(a.iapdus, vec![vec![0x00, 0x20, 0x00, 0x81, 0x03, 0x31, 0x32, 0x33]]);
}

#[test]
fn payload_of_254_bytes_stays_in_one_packet() {
    let data = payload(254);
    let a = APDU::new(0x00, 0x2A, 0x80, 0x86, Some(data.clone()));
    assert_eq!(a.iapdus.len(), 1);
    assert_eq!(&a.iapdus[0][..5], &[0x00, 0x2A, 0x80, 0x86, 254]);
    assert_eq!(joined(&a), data);
}

#[test]
fn payload_of_255_bytes_is_chained() {
    let data = payload(255);
    let a = APDU::new(0x00, 0x2A, 0x80, 0x86, Some(data.clone()));
    assert_eq!(a.iapdus.len(), 2);
    assert_eq!(&a.iapdus[0][..5], &[0x10, 0x2A, 0x80, 0x86, 0xFE]);
    assert_eq!(a.iapdus[0].len(), 259);
    assert_eq!(&a.iapdus[1][..5], &[0x00, 0x2A, 0x80, 0x86, 1]);
    assert_eq!(a.iapdus[1][5], data[254]);
    assert_eq!(joined(&a), data);
}

#[test]
fn payload_of_508_bytes_ends_with_a_full_packet() {
    let data = payload(508);
    let a = APDU::new(0x00, 0x2A, 0x80, 0x86, Some(data.clone()));
    assert_eq!(a.iapdus.len(), 2);
    assert_eq!(a.iapdus[1][4], 254);
    assert_eq!(joined(&a), data);
}

#[test]
fn long_payload_chains_in_order() {
    let data = payload(600);
    let a = APDU::new(0x00, 0x2A, 0x80, 0x86, Some(data.clone()));
    assert_eq!(a.iapdus.len(), 3);
    assert_eq!(a.iapdus[0][0], 0x10);
    assert_eq!(a.iapdus[1][0], 0x10);
    assert_eq!(a.iapdus[2][0], 0x00);
    assert_eq!(a.iapdus[2][4], (600 - 508) as u8);
    assert_eq!(joined(&a), data);
    assert_eq!(a.data, data);
}

#[test]
fn big_apdu_with_short_payload_has_one_length_byte() {
    let a = APDU::create_big_apdu(0x00, 0xDA, 0x00, 0xC2, vec![0x01, 0x02]);
    assert_eq!(a.iapdus, vec![vec![0x00, 0xDA, 0x00, 0xC2, 0x02, 0x01, 0x02]]);
}

#[test]
fn big_apdu_with_255_bytes_has_one_length_byte() {
    let data = payload(255);
    let a = APDU::create_big_apdu(0x00, 0xDA, 0x00, 0xC2, data.clone());
    assert_eq!(a.iapdus.len(), 1);
    assert_eq!(a.iapdus[0][4], 0xFF);
    assert_eq!(&a.iapdus[0][5..], &data[..]);
}

#[test]
fn big_apdu_with_long_payload_has_three_length_bytes() {
    let data = payload(300);
    let a = create_apdu_for_algo_attributes(data.clone());
    assert_eq!(a.iapdus.len(), 1);
    assert_eq!(&a.iapdus[0][..7], &[0x00, 0xDA, 0x00, 0xC2, 0x00, 0x01, 0x2C]);
    assert_eq!(&a.iapdus[0][7..], &data[..]);
}

#[test]
fn select_openpgp_packet() {
    let a = create_apdu_select_openpgp();
    assert_eq!(
        a.iapdus,
        vec![vec![0x00, 0xA4, 0x04, 0x00, 0x06, 0xD2, 0x76, 0x00, 0x01, 0x24, 0x01]]
    );
}

#[test]
fn fixed_get_data_packets() {
    assert_eq!(create_apdu_get_url().iapdus, vec![vec![0x00, 0xCA, 0x5F, 0x50, 0x00]]);
    assert_eq!(create_apdu_personal_information().iapdus, vec![vec![0x00, 0xCA, 0x00, 0x65, 0x00]]);
    assert_eq!(create_apdu_get_aid().iapdus, vec![vec![0x00, 0xCA, 0x00, 0x4F, 0x00]]);
    assert_eq!(create_apdu_get_application_data().iapdus, vec![vec![0x00, 0xCA, 0x00, 0x6E, 0x00]]);
}

#[test]
fn verify_pin_packets() {
    let pin = vec![0x31, 0x32, 0x33, 0x34, 0x35, 0x36];
    assert_eq!(
        create_apdu_verify_pw1_for_others(pin.clone()).iapdus,
        vec![vec![0x00, 0x20, 0x00, 0x82, 0x06, 0x31, 0x32, 0x33, 0x34, 0x35, 0x36]]
    );
    assert_eq!(
        create_apdu_verify_pw1_for_sign(pin.clone()).iapdus,
        vec![vec![0x00, 0x20, 0x00, 0x81, 0x06, 0x31, 0x32, 0x33, 0x34, 0x35, 0x36]]
    );
    let pw3 = vec![0x31, 0x32, 0x33, 0x34, 0x35, 0x36, 0x37, 0x38];
    assert_eq!(
        create_apdu_verify_pw3(pw3).iapdus,
        vec![vec![0x00, 0x20, 0x00, 0x83, 0x08, 0x31, 0x32, 0x33, 0x34, 0x35, 0x36, 0x37, 0x38]]
    );
}

#[test]
fn decryption_packet_chains_long_input() {
    let a = create_apdu_for_decryption(payload(400));
    assert_eq!(a.iapdus.len(), 2);
    assert_eq!(&a.iapdus[0][..5], &[0x10, 0x2A, 0x80, 0x86, 0xFE]);
    assert_eq!(&a.iapdus[1][..5], &[0x00, 0x2A, 0x80, 0x86, 146]);
}

#[test]
fn reading_packet_carries_the_length() {
    let a = create_apdu_for_reading(0x20);
    assert_eq!(a.iapdus, vec![vec![0x00, 0xC0, 0x00, 0x00, 0x20]]);
    assert!(a.data.is_empty());
}

#[test]
fn iterator_hands_out_packets_in_order() {
    let a = APDU::new(0x00, 0x2A, 0x80, 0x86, Some(payload(300)));
    let mut it = a.iter();
    assert_eq!(it.next(), Some(a.iapdus[0].clone()));
    assert_eq!(it.next(), Some(a.iapdus[1].clone()));
    assert_eq!(it.next(), None);
    assert_eq!(it.next(), None);
}

#[test]
fn preset_commands_keep_their_header_fields() {
    let a = create_apdu_select_openpgp();
    assert_eq!((a.cla, a.ins, a.p1, a.p2), (0x00, 0xA4, 0x04, 0x00));
    assert_eq!(a.data, vec![0xD2, 0x76, 0x00, 0x01, 0x24, 0x01]);
    let a = create_apdu_get_aid();
    assert_eq!((a.cla, a.ins, a.p1, a.p2), (0x00, 0xCA, 0x00, 0x4F));
    assert!(a.data.is_empty());
    let a = create_apdu_for_decryption(vec![0x01]);
    assert_eq!((a.cla, a.ins, a.p1, a.p2), (0x00, 0x2A, 0x80, 0x86));
    let a = create_apdu_for_algo_attributes(vec![0x01]);
    assert_eq!((a.cla, a.ins, a.p1, a.p2), (0x00, 0xDA, 0x00, 0xC2));
}
