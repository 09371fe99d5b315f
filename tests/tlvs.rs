use talktosc::errors::TalktoSCError;
use talktosc::tlvs::{hex, hexify, parse_card_serial, parse_fingerprints, read_list, read_single, TLV};

fn name_object() -> Vec<u8> {
    let mut d = vec![0x5B, 0x0B];
    d.extend_from_slice(b"Das<<Kushal");
    d
}

fn cardholder_object() -> Vec<u8> {
    let mut inner = name_object();
    inner.extend_from_slice(&[0x5F, 0x2D, 0x02, b'e', b'n']);
    let mut d = vec![0x65, inner.len() as u8];
    d.extend_from_slice(&inner);
    d
}

fn nested_tree() -> TLV {
    let data = vec![
        0x6E, 0x0E, 0x4F, 0x01, 0x01, 0x73, 0x06, 0xC5, 0x01, 0x11, 0xC1, 0x01, 0x22, 0xC1, 0x01,
        0x33,
    ];
    let list = read_list(data, true).unwrap();
    assert_eq!(list.len(), 1);
    list[0].clone()
}

fn shape(t: &TLV) -> (u16, u16, Vec<u8>, usize) {
    (t.get_t(), t.get_l(), t.get_v().to_vec(), t.subs.len())
}

#[test]
fn primitive_object_decodes_to_its_parts() {
    let (node, rest) = read_single(name_object(), true).unwrap();
    assert_eq!(node.get_t(), 0x5B);
    assert_eq!(node.get_l(), 11);
    assert_eq!(node.get_v(), b"Das<<Kushal");
    assert!(node.subs.is_empty());
    assert!(!node.if_recursive());
    assert!(rest.is_empty());
}

#[test]
fn primitive_object_leaves_what_follows() {
    let (node, rest) = read_single(vec![0x5B, 0x01, 0xAA, 0x4F, 0x00], false).unwrap();
    assert_eq!(shape(&node), (0x5B, 1, vec![0xAA], 0));
    assert_eq!(rest, vec![0x4F, 0x00]);
}

#[test]
fn two_byte_tag_is_combined() {
    let (node, _) = read_single(vec![0x5F, 0x52, 0x02, 0x00, 0x73], true).unwrap();
    assert_eq!(node.get_t(), 0x5F52);
    assert_eq!(node.get_v(), &[0x00, 0x73]);
}

#[test]
fn second_tag_byte_keeps_seven_bits() {
    let (node, _) = read_single(vec![0x9F, 0x81, 0x00], true).unwrap();
    assert_eq!(node.get_t(), 0x9F01);
}

#[test]
fn third_tag_byte_is_refused() {
    let r = read_single(vec![0x5F, 0xFF, 0x01, 0x00], true);
    assert_eq!(r.unwrap_err(), TalktoSCError::BadTagExtension);
}

#[test]
fn long_form_lengths_are_read() {
    let (node, rest) = read_single(vec![0x5B, 0x81, 0x03, 0x41, 0x42, 0x43, 0x99], true).unwrap();
    assert_eq!(node.get_l(), 3);
    assert_eq!(node.get_v(), &[0x41, 0x42, 0x43]);
    assert_eq!(rest, vec![0x99]);
    let mut data = vec![0x5B, 0x82, 0x01, 0x02];
    data.extend(std::iter::repeat(0x7E).take(0x102));
    let (node, rest) = read_single(data, true).unwrap();
    assert_eq!(node.get_l(), 0x102);
    assert_eq!(node.get_v().len(), 0x102);
    assert!(rest.is_empty());
}

#[test]
fn malformed_length_is_refused() {
    assert_eq!(
        read_single(vec![0x5B, 0x83, 0x00, 0x00, 0x01, 0x41], true).unwrap_err(),
        TalktoSCError::BadLength
    );
    assert_eq!(read_list(vec![0x4F, 0x01, 0x01, 0x5B, 0x83, 0x00, 0x00, 0x01, 0x41], true).unwrap_err(), TalktoSCError::BadLength);
}

#[test]
fn truncated_object_is_refused() {
    assert_eq!(read_single(vec![0x5B, 0x05, 0x01], true).unwrap_err(), TalktoSCError::TruncatedTlv);
    assert_eq!(read_single(vec![0x5B], true).unwrap_err(), TalktoSCError::TruncatedTlv);
    assert_eq!(read_single(vec![], true).unwrap_err(), TalktoSCError::TruncatedTlv);
    assert_eq!(read_single(vec![0x5F], true).unwrap_err(), TalktoSCError::TruncatedTlv);
    assert_eq!(read_single(vec![0x5B, 0x82, 0x01], true).unwrap_err(), TalktoSCError::TruncatedTlv);
}

#[test]
fn constructed_object_decodes_recursively() {
    let data = cardholder_object();
    let (node, rest) = read_single(data.clone(), true).unwrap();
    assert_eq!(node.get_t(), 0x65);
    assert_eq!(node.get_v(), &data[2..]);
    assert!(node.if_recursive());
    assert_eq!(node.subs.len(), 2);
    assert_eq!(shape(&node.subs[0]), (0x5B, 11, b"Das<<Kushal".to_vec(), 0));
    assert_eq!(shape(&node.subs[1]), (0x5F2D, 2, b"en".to_vec(), 0));
    assert!(rest.is_empty());
    let mut again = Vec::new();
    for s in &node.subs {
        if s.get_t() > 0xFF {
            again.push((s.get_t() >> 8) as u8);
        }
        again.push(s.get_t() as u8);
        again.push(s.get_l() as u8);
        again.extend_from_slice(s.get_v());
    }
    assert_eq!(again, node.get_v());
}

#[test]
fn constructed_object_without_recursion_keeps_its_value() {
    let mut data = cardholder_object();
    data.push(0x4F);
    data.push(0x00);
    let (node, rest) = read_single(data, false).unwrap();
    assert_eq!(node.get_t(), 0x65);
    assert!(node.subs.is_empty());
    assert_eq!(rest, vec![0x4F, 0x00]);
}

#[test]
fn list_decodes_in_order() {
    let list = read_list(vec![0x5B, 0x01, 0xAA, 0x4F, 0x02, 0xBB, 0xCC], true).unwrap();
    assert_eq!(list.len(), 2);
    assert_eq!(shape(&list[0]), (0x5B, 1, vec![0xAA], 0));
    assert_eq!(shape(&list[1]), (0x4F, 2, vec![0xBB, 0xCC], 0));
}

#[test]
fn fillers_are_skipped() {
    let plain = read_list(vec![0x5B, 0x01, 0xAA, 0x4F, 0x01, 0xBB], true).unwrap();
    let padded =
        read_list(vec![0x00, 0xFF, 0x5B, 0x01, 0xAA, 0xFF, 0x00, 0x4F, 0x01, 0xBB, 0x00], true).unwrap();
    assert_eq!(plain.len(), padded.len());
    for (a, b) in plain.iter().zip(padded.iter()) {
        assert_eq!(shape(a), shape(b));
    }
}

#[test]
fn only_fillers_decode_to_nothing() {
    assert!(read_list(vec![0x00, 0xFF, 0x00], true).unwrap().is_empty());
    assert!(read_list(vec![], true).unwrap().is_empty());
}

#[test]
fn siblings_after_a_constructed_object_are_kept() {
    let tree = nested_tree();
    assert_eq!(tree.subs.len(), 3);
    assert_eq!(shape(&tree.subs[0]), (0x4F, 1, vec![0x01], 0));
    assert_eq!(shape(&tree.subs[1]).3, 2);
    assert_eq!(shape(&tree.subs[2]), (0xC1, 1, vec![0x33], 0));
}

#[test]
fn objects_after_a_top_level_composite_are_decoded() {
    let list = read_list(vec![0x65, 0x03, 0x5B, 0x01, 0x41, 0x4F, 0x01, 0x01, 0x00, 0x5B, 0x01, 0x42], true)
        .unwrap();
    assert_eq!(list.len(), 3);
    assert_eq!(list[0].get_t(), 0x65);
    assert_eq!(list[0].subs.len(), 1);
    assert_eq!(shape(&list[0].subs[0]), (0x5B, 1, vec![0x41], 0));
    assert_eq!(shape(&list[1]), (0x4F, 1, vec![0x01], 0));
    assert_eq!(shape(&list[2]), (0x5B, 1, vec![0x42], 0));
}

#[test]
fn read_single_on_a_composite_reports_nothing_left() {
    let (node, rest) = read_single(vec![0x65, 0x03, 0x5B, 0x01, 0x41, 0x4F, 0x01, 0x01], true).unwrap();
    assert_eq!(node.get_t(), 0x65);
    assert_eq!(node.subs.len(), 1);
    assert!(rest.is_empty());
}

#[test]
fn find_tag_returns_first_in_preorder() {
    let tree = nested_tree();
    assert_eq!(tree.get_t(), 0x6E);
    let found = tree.find_tag(0xC1).unwrap();
    assert_eq!(found.get_v(), &[0x22]);
    assert_eq!(tree.find_tag(0x73).unwrap().subs.len(), 2);
    assert_eq!(tree.find_tag(0x6E).unwrap().get_t(), 0x6E);
    assert!(tree.find_tag(0x99).is_none());
}

#[test]
fn accessors_look_up_their_tags() {
    let tree = nested_tree();
    assert_eq!(tree.get_aid(), Some(vec![0x01]));
    assert_eq!(tree.get_fingerprints(), Some(vec![0x11]));
    assert_eq!(tree.get_signature_algo_attributes(), Some(vec![0x22]));
    assert_eq!(tree.get_encryption_algo_attributes(), None);
    assert_eq!(tree.get_authentication_algo_attributes(), None);
    assert_eq!(tree.get_key_information(), None);
    assert_eq!(tree.get_historical_bytes(), None);
    let (holder, _) = read_single(cardholder_object(), true).unwrap();
    assert_eq!(String::from_utf8(holder.get_name().unwrap()).unwrap(), "Das<<Kushal");
}

#[test]
fn clone_copies_the_whole_tree() {
    let tree = nested_tree();
    let copy = tree.clone();
    assert_eq!(shape(&copy), shape(&tree));
    assert_eq!(shape(&copy.subs[1].subs[1]), (0xC1, 1, vec![0x22], 0));
}

#[test]
fn hex_writes_upper_case_digits() {
    assert_eq!(hex(16), "0x10");
    assert_eq!(hex(0), "0x0");
    assert_eq!(hex(0xAB), "0xAB");
    assert_eq!(hex(0x5F52), "0x5F52");
}

#[test]
fn hexify_writes_each_byte() {
    assert_eq!(hexify(vec![0x01, 0xAB, 0x10]), " 0x1 0xAB 0x10");
    assert_eq!(hexify(vec![]), "");
}

#[test]
fn card_serial_comes_from_aid_bytes() {
    let aid = vec![
        0xD2, 0x76, 0x00, 0x01, 0x24, 0x01, 0x03, 0x04, 0x00, 0x06, 0x14, 0x49, 0x07, 0x29, 0x00,
        0x00,
    ];
    assert_eq!(parse_card_serial(aid), "14490729");
    let aid = vec![0, 0, 0, 0, 0, 0, 0, 0, 0, 0, 0xAB, 0x0C, 0xFF, 0x00];
    assert_eq!(parse_card_serial(aid), "AB0CFF00");
}

#[test]
fn fingerprints_are_split_in_three() {
    let data: Vec<u8> = (0..60).collect();
    let (sig, dec, auth) = parse_fingerprints(data.clone());
    assert_eq!(sig, data[0..20].to_vec());
    assert_eq!(dec, data[20..40].to_vec());
    assert_eq!(auth, data[40..60].to_vec());
    let mut obj = vec![0xC5, 0x81, 0x3C];
    obj.extend_from_slice(&data);
    let (node, _) = read_single(obj, true).unwrap();
    assert_eq!(parse_fingerprints(node.get_v().to_vec()).2, data[40..60].to_vec());
}
