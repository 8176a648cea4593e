use snmp2::pdu::{mpd_report, push_value, report_kind, target_report, usm_report};
use snmp2::snmp;
use snmp2::{
    build, build_get, build_getbulk, build_getnext, build_inner, build_set, AsnReader,
    AuthErrorKind, Buf, Error, MessageType, Oid, Pdu, ReportError, Value, Version, BUFFER_SIZE,
};

fn sys_descr() -> Oid<'static> {
    Oid::from(&[1, 3, 6, 1, 2, 1, 1, 1, 0]).unwrap()
}

#[test]
fn v2c_get_of_sys_descr() {
    let mut buf = Buf::new();
    build_get(Version::V2C, b"public", 1, &sys_descr(), &mut buf).unwrap();
    assert_eq!(
        buf.as_bytes(),
        &[
            0x30, 0x26, 0x02, 0x01, 0x01, 0x04, 0x06, 0x70, 0x75, 0x62, 0x6c, 0x69, 0x63, 0xa0, 0x19,
            0x02, 0x01, 0x01, 0x02, 0x01, 0x00, 0x02, 0x01, 0x00, 0x30, 0x0e, 0x30, 0x0c, 0x06, 0x08,
            0x2b, 0x06, 0x01, 0x02, 0x01, 0x01, 0x01, 0x00, 0x05, 0x00
        ][..]
    );
}

#[test]
fn v2c_get_with_a_four_octet_request_id() {
    let mut buf = Buf::new();
    build_get(Version::V2C, b"public", 0x0102_0304, &sys_descr(), &mut buf).unwrap();
    assert_eq!(
        buf.as_bytes(),
        &[
            0x30, 0x29, 0x02, 0x01, 0x01, 0x04, 0x06, 0x70, 0x75, 0x62, 0x6c, 0x69, 0x63, 0xa0, 0x1c,
            0x02, 0x04, 0x01, 0x02, 0x03, 0x04, 0x02, 0x01, 0x00, 0x02, 0x01, 0x00, 0x30, 0x0e, 0x30,
            0x0c, 0x06, 0x08, 0x2b, 0x06, 0x01, 0x02, 0x01, 0x01, 0x01, 0x00, 0x05, 0x00
        ][..]
    );
}

#[test]
fn get_for_version_1() {
    let mut buf = Buf::new();
    build_get(Version::V1, b"", -1, &Oid::new(&[0x2B]), &mut buf).unwrap();
    assert_eq!(
        buf.as_bytes(),
        &[
            0x30, 0x19, 2, 1, 0, 4, 0, 0xA0, 0x12, 2, 1, 0xFF, 2, 1, 0, 2, 1, 0, 0x30, 0x07, 0x30,
            0x05, 6, 1, 0x2B, 5, 0
        ][..]
    );
}

#[test]
fn getnext_differs_from_get_in_the_identifier() {
    let mut get = Buf::new();
    let mut next = Buf::new();
    build_get(Version::V2C, b"public", 7, &sys_descr(), &mut get).unwrap();
    build_getnext(Version::V2C, b"public", 7, &sys_descr(), &mut next).unwrap();
    assert_eq!(get.as_bytes()[13], 0xA0);
    assert_eq!(next.as_bytes()[13], 0xA1);
    assert_eq!(get.as_bytes()[..13], next.as_bytes()[..13]);
    assert_eq!(get.as_bytes()[14..], next.as_bytes()[14..]);
}

#[test]
fn getbulk_carries_non_repeaters_and_max_repetitions() {
    let a = Oid::from(&[1, 3, 6, 1, 2, 1, 1]).unwrap();
    let b = Oid::from(&[1, 3, 6, 1, 2, 1, 2]).unwrap();
    let mut buf = Buf::new();
    build_getbulk(Version::V2C, b"public", 5, &[&a, &b], 1, 10, &mut buf).unwrap();
    assert_eq!(
        buf.as_bytes(),
        &[
            0x30, 0x30, 2, 1, 1, 4, 6, b'p', b'u', b'b', b'l', b'i', b'c', 0xA5, 0x23, //
            2, 1, 5, 2, 1, 1, 2, 1, 10, //
            0x30, 0x18, //
            0x30, 0x0A, 6, 6, 0x2B, 6, 1, 2, 1, 1, 5, 0, //
            0x30, 0x0A, 6, 6, 0x2B, 6, 1, 2, 1, 2, 5, 0
        ][..]
    );
    let pdu = Pdu::from_bytes(buf.as_bytes()).unwrap();
    assert_eq!(pdu.message_type, MessageType::GetBulk);
    assert_eq!(pdu.req_id, 5);
    assert_eq!(pdu.error_status, 1);
    assert_eq!(pdu.error_index, 10);
    assert_eq!(pdu.varbinds.to_vec(), vec![(a, Value::Null), (b, Value::Null)]);
}

#[test]
fn getbulk_without_names() {
    let mut buf = Buf::new();
    build_getbulk(Version::V2C, b"c", 0, &[], 0, 0, &mut buf).unwrap();
    assert_eq!(
        buf.as_bytes(),
        &[0x30, 0x13, 2, 1, 1, 4, 1, b'c', 0xA5, 0x0B, 2, 1, 0, 2, 1, 0, 2, 1, 0, 0x30, 0][..]
    );
}

#[test]
fn set_carries_the_values_in_order() {
    let a = Oid::new(&[0x2B, 1]);
    let b = Oid::new(&[0x2B, 2]);
    let mut buf = Buf::new();
    build_set(
        Version::V2C,
        b"private",
        9,
        &[(&a, Value::Integer(300)), (&b, Value::OctetString(b"hi"))],
        &mut buf,
    )
    .unwrap();
    assert_eq!(
        buf.as_bytes(),
        &[
            0x30, 0x2D, 2, 1, 1, 4, 7, b'p', b'r', b'i', b'v', b'a', b't', b'e', 0xA3, 0x1F, //
            2, 1, 9, 2, 1, 0, 2, 1, 0, //
            0x30, 0x14, //
            0x30, 0x08, 6, 2, 0x2B, 1, 2, 2, 1, 0x2C, //
            0x30, 0x08, 6, 2, 0x2B, 2, 4, 2, b'h', b'i'
        ][..]
    );
}

#[test]
fn build_inner_writes_the_pdu_alone() {
    let a = Oid::new(&[0x2B, 1]);
    let mut buf = Buf::new();
    buf.push_byte(0xEE);
    build_inner(2, snmp::MSG_RESPONSE, &[(&a, Value::Counter32(3))], 4, 5, &mut buf);
    assert_eq!(
        buf.as_bytes(),
        &[
            0xA2, 0x14, 2, 1, 2, 2, 1, 4, 2, 1, 5, 0x30, 0x09, 0x30, 0x07, 6, 2, 0x2B, 1, 0x41, 1,
            3, 0xEE
        ][..]
    );
}

#[test]
fn build_empties_the_buffer_first() {
    let mut buf = Buf::new();
    buf.push_chunk(&[1, 2, 3]);
    buf.push_chunk(&[0; BUFFER_SIZE]);
    assert!(buf.overflowed());
    build(Version::V1, b"x", snmp::MSG_GET, 1, &[], 0, 0, &mut buf).unwrap();
    assert!(!buf.overflowed());
    assert_eq!(
        buf.as_bytes(),
        &[0x30, 0x13, 2, 1, 0, 4, 1, b'x', 0xA0, 0x0B, 2, 1, 1, 2, 1, 0, 2, 1, 0, 0x30, 0][..]
    );
}

#[test]
fn set_that_does_not_fit() {
    let payload = [0x5Au8; BUFFER_SIZE];
    let oid = sys_descr();
    let mut buf = Buf::new();
    let r = build_set(Version::V2C, b"public", 1, &[(&oid, Value::OctetString(&payload))], &mut buf);
    assert_eq!(r, Err(Error::EncodeOverflow));
    assert!(buf.is_empty());
    assert!(!buf.overflowed());
    // The buffer is fit for the next request.
    build_get(Version::V2C, b"public", 2, &oid, &mut buf).unwrap();
    assert_eq!(buf.len(), 40);
}

#[test]
fn message_of_exactly_the_capacity_is_built() {
    let oid = Oid::new(&[0x2B]);
    // 4096 = 4 + 3 + 2 + (4 + 9 + (4 + (4 + 3 + (4 + n)))) with n = 4059.
    let payload = vec![1u8; 4059];
    let mut buf = Buf::new();
    build_set(Version::V1, b"", 1, &[(&oid, Value::OctetString(&payload))], &mut buf).unwrap();
    assert_eq!(buf.len(), BUFFER_SIZE);
    let payload = vec![1u8; 4060];
    let r = build_set(Version::V1, b"", 1, &[(&oid, Value::OctetString(&payload))], &mut buf);
    assert_eq!(r, Err(Error::EncodeOverflow));
    assert!(buf.is_empty());
}

#[test]
fn version_3_needs_a_security_context() {
    let mut buf = Buf::new();
    buf.push_byte(1);
    let r = build_get(Version::V3, b"public", 1, &sys_descr(), &mut buf);
    assert_eq!(r, Err(Error::AuthFailure(AuthErrorKind::SecurityNotProvided)));
    assert_eq!(buf.as_bytes(), &[1u8][..]);
    let frame = [0x30, 3, 2, 1, 3];
    assert_eq!(
        Pdu::from_bytes(&frame).err(),
        Some(Error::AuthFailure(AuthErrorKind::SecurityNotProvided))
    );
}

#[test]
fn push_value_writes_every_kind() {
    let oid = Oid::new(&[0x2B, 6]);
    let values = [
        Value::Boolean(true),
        Value::Null,
        Value::Integer(-5),
        Value::OctetString(b"xyz"),
        Value::ObjectIdentifier(oid),
        Value::IpAddress([127, 0, 0, 1]),
        Value::Counter32(4_000_000_000),
        Value::Unsigned32(77),
        Value::Timeticks(123456),
        Value::Opaque(&[0xDE, 0xAD]),
        Value::Counter64(u64::MAX - 1),
        Value::EndOfMibView,
        Value::NoSuchObject,
        Value::NoSuchInstance,
    ];
    for value in &values {
        let mut buf = Buf::new();
        push_value(&mut buf, value);
        let mut reader = AsnReader::from_bytes(buf.as_bytes());
        assert_eq!(reader.read_value().as_ref(), Ok(value));
        assert_eq!(reader.remaining(), &[] as &[u8]);
    }
}

#[test]
fn built_message_decodes_to_its_fields() {
    let a = Oid::from(&[1, 3, 6, 1, 2, 1, 1, 5, 0]).unwrap();
    let b = Oid::from(&[1, 3, 6, 1, 4, 1, 2680, 1, 2, 7, 3, 2, 0]).unwrap();
    let c = Oid::from(&[1, 3, 6, 1, 2, 1, 2, 2, 1, 10, 1]).unwrap();
    let long = vec![0xABu8; 300];
    let values = vec![
        (&a, Value::OctetString(&long)),
        (&b, Value::ObjectIdentifier(a.clone())),
        (&c, Value::Counter64(u64::MAX)),
        (&a, Value::IpAddress([1, 2, 3, 4])),
        (&b, Value::Boolean(false)),
        (&c, Value::Timeticks(u32::MAX)),
        (&a, Value::NoSuchInstance),
    ];
    for (version, number) in [(Version::V1, 0), (Version::V2C, 1)] {
        for (ident, message_type) in [
            (snmp::MSG_GET, MessageType::Get),
            (snmp::MSG_GET_NEXT, MessageType::GetNext),
            (snmp::MSG_RESPONSE, MessageType::Response),
            (snmp::MSG_SET, MessageType::SetRequest),
            (snmp::MSG_GET_BULK, MessageType::GetBulk),
            (snmp::MSG_INFORM, MessageType::InformRequest),
            (snmp::MSG_TRAP_V2, MessageType::TrapV2),
            (snmp::MSG_REPORT, MessageType::Report),
        ] {
            let mut buf = Buf::new();
            build(version, b"community", ident, i32::MIN, &values, 0x7FFF_FFFF, 18, &mut buf)
                .unwrap();
            let pdu = Pdu::from_bytes(buf.as_bytes()).unwrap();
            assert_eq!(pdu.version, number);
            assert_eq!(pdu.version(), Ok(version));
            assert_eq!(pdu.community, b"community");
            assert_eq!(pdu.message_type, message_type);
            assert_eq!(pdu.req_id, i32::MIN);
            assert_eq!(pdu.error_status, 0x7FFF_FFFF);
            assert_eq!(pdu.error_index, 18);
            assert!(pdu.v1_trap_info.is_none());
            let decoded = pdu.varbinds.to_vec();
            assert_eq!(decoded.len(), values.len());
            for ((oid, value), (name, expected)) in decoded.iter().zip(values.iter()) {
                assert_eq!(&oid, name);
                assert_eq!(value, expected);
            }
            // Building again from what was decoded gives the same octets.
            let again: Vec<(&Oid, Value)> = decoded.iter().map(|(o, v)| (o, v.clone())).collect();
            let mut second = Buf::new();
            build(
                version,
                pdu.community,
                pdu.message_type.ident(),
                pdu.req_id,
                &again,
                pdu.error_status,
                pdu.error_index,
                &mut second,
            )
            .unwrap();
            assert_eq!(second.as_bytes(), buf.as_bytes());
        }
    }
}

fn trap_v1(version: i64, generic: i64) -> Vec<u8> {
    let mut buf = Buf::new();
    buf.push_sequence(|buf| {
        buf.push_constructed(snmp::MSG_TRAP_V1, |buf| {
            buf.push_sequence(|buf| {
                buf.push_sequence(|buf| {
                    buf.push_integer(42);
                    buf.push_object_identifier(&[1, 3, 6, 1, 2, 1, 1, 3, 0]);
                });
            });
            buf.push_timeticks(12345);
            buf.push_integer(17);
            buf.push_integer(generic);
            buf.push_ipaddress([10, 1, 2, 3]);
            buf.push_object_identifier(&[1, 3, 6, 1, 4, 1, 2680]);
        });
        buf.push_octet_string(b"traps");
        buf.push_integer(version);
    });
    assert!(!buf.overflowed());
    buf.as_bytes().to_vec()
}

#[test]
fn v1_trap_decode() {
    for generic in [0i64, 6, -1, 70000] {
        let frame = trap_v1(0, generic);
        let pdu = Pdu::from_bytes(&frame).unwrap();
        assert_eq!(pdu.message_type, MessageType::TrapV1);
        assert_eq!(pdu.version(), Ok(Version::V1));
        assert_eq!(pdu.community, b"traps");
        assert_eq!(pdu.req_id, 0);
        assert_eq!(pdu.error_status, 0);
        assert_eq!(pdu.error_index, 0);
        let info = pdu.v1_trap_info.as_ref().unwrap();
        assert_eq!(info.generic_trap, generic);
        assert_eq!(info.specific_trap, 17);
        assert_eq!(info.timestamp, 12345);
        assert_eq!(info.agent_addr, [10, 1, 2, 3]);
        assert_eq!(info.enterprise, Oid::from(&[1, 3, 6, 1, 4, 1, 2680]).unwrap());
        assert_eq!(
            pdu.varbinds.to_vec(),
            vec![(Oid::from(&[1, 3, 6, 1, 2, 1, 1, 3, 0]).unwrap(), Value::Integer(42))]
        );
    }
}

#[test]
fn v1_trap_under_version_2c_is_refused() {
    assert_eq!(Pdu::from_bytes(&trap_v1(1, 6)).err(), Some(Error::AsnWrongType));
}

#[test]
fn version_reject() {
    let mut buf = Buf::new();
    build_get(Version::V2C, b"public", 1, &sys_descr(), &mut buf).unwrap();
    let mut frame = buf.as_bytes().to_vec();
    assert_eq!(frame[4], 1);
    frame[4] = 2;
    assert_eq!(Pdu::from_bytes(&frame).err(), Some(Error::UnsupportedVersion));
    frame[4] = 4;
    assert_eq!(Pdu::from_bytes(&frame).err(), Some(Error::UnsupportedVersion));
    frame[4] = 0xFF;
    assert_eq!(Pdu::from_bytes(&frame).err(), Some(Error::UnsupportedVersion));
    frame[4] = 0;
    assert!(Pdu::from_bytes(&frame).is_ok());
}

#[test]
fn decode_refuses_malformed_frames() {
    assert_eq!(Pdu::from_bytes(&[]).err(), Some(Error::AsnEof));
    assert_eq!(Pdu::from_bytes(&[0x31, 0]).err(), Some(Error::AsnWrongType));
    assert_eq!(Pdu::from_bytes(&[0x30, 0x80]).err(), Some(Error::AsnInvalidLen));
    assert_eq!(Pdu::from_bytes(&[0x30, 5, 2, 1, 1]).err(), Some(Error::AsnInvalidLen));
    assert_eq!(Pdu::from_bytes(&[0x30, 0]).err(), Some(Error::AsnEof));
    assert_eq!(Pdu::from_bytes(&[0x30, 3, 2, 1, 1]).err(), Some(Error::AsnEof));
    assert_eq!(Pdu::from_bytes(&[0x30, 5, 2, 1, 1, 4, 0]).err(), Some(Error::AsnEof));
    assert_eq!(Pdu::from_bytes(&[0x30, 7, 2, 1, 1, 4, 0, 0x30, 0]).err(), Some(Error::AsnWrongType));
    assert_eq!(Pdu::from_bytes(&[0x30, 7, 2, 1, 1, 4, 0, 0xA2, 0]).err(), Some(Error::AsnEof));
    assert_eq!(
        Pdu::from_bytes(&[0x30, 11, 2, 9, 0, 0, 0, 0, 0, 0, 0, 0, 1]).err(),
        Some(Error::AsnIntOverflow)
    );
}

fn response_with(req_id: &[u8], status: &[u8], index: &[u8]) -> Vec<u8> {
    let mut body = Vec::new();
    for field in [req_id, status, index] {
        body.push(2);
        body.push(field.len() as u8);
        body.extend_from_slice(field);
    }
    body.extend_from_slice(&[0x30, 0]);
    let mut frame = vec![0x30, (7 + body.len()) as u8, 2, 1, 1, 4, 0, 0xA2, body.len() as u8];
    frame.extend_from_slice(&body);
    frame
}

#[test]
fn decode_checks_the_ranges_of_the_header_fields() {
    let pdu_bytes = response_with(&[0x7F, 0xFF, 0xFF, 0xFF], &[0x7F, 0xFF, 0xFF, 0xFF], &[0]);
    let pdu = Pdu::from_bytes(&pdu_bytes).unwrap();
    assert_eq!(pdu.req_id, i32::MAX);
    assert_eq!(pdu.error_status, 0x7FFF_FFFF);
    let pdu_bytes = response_with(&[0x80, 0, 0, 0], &[0], &[0]);
    assert_eq!(Pdu::from_bytes(&pdu_bytes).unwrap().req_id, i32::MIN);
    for frame in [
        response_with(&[0, 0x80, 0, 0, 0], &[0], &[0]),
        response_with(&[0xFF, 0x7F, 0xFF, 0xFF, 0xFF], &[0], &[0]),
        response_with(&[1], &[0xFF], &[0]),
        response_with(&[1], &[0, 0x80, 0, 0, 0], &[0]),
        response_with(&[1], &[0], &[0xFF]),
        response_with(&[1], &[0], &[0, 0x80, 0, 0, 0]),
    ] {
        assert_eq!(Pdu::from_bytes(&frame).err(), Some(Error::ValueOutOfRange));
    }
}

fn response(ident: u8, req_id: i32, community: &[u8], oid: &Oid) -> Vec<u8> {
    let mut buf = Buf::new();
    build(Version::V2C, community, ident, req_id, &[(oid, Value::Integer(1))], 0, 0, &mut buf)
        .unwrap();
    buf.as_bytes().to_vec()
}

#[test]
fn validate_accepts_the_expected_response() {
    let frame = response(snmp::MSG_RESPONSE, 77, b"public", &sys_descr());
    let pdu = Pdu::from_bytes(&frame).unwrap();
    assert_eq!(pdu.validate(MessageType::Response, 77, b"public"), Ok(()));
}

#[test]
fn validate_names_the_first_mismatch() {
    let frame = response(snmp::MSG_RESPONSE, 77, b"public", &sys_descr());
    let pdu = Pdu::from_bytes(&frame).unwrap();
    assert_eq!(pdu.validate(MessageType::Get, 77, b"public"), Err(Error::AsnWrongType));
    assert_eq!(pdu.validate(MessageType::Response, 78, b"public"), Err(Error::RequestIdMismatch));
    assert_eq!(pdu.validate(MessageType::Response, 77, b"private"), Err(Error::CommunityMismatch));
    assert_eq!(pdu.validate(MessageType::Response, 77, b"publi"), Err(Error::CommunityMismatch));
    assert_eq!(pdu.validate(MessageType::Response, 77, b""), Err(Error::CommunityMismatch));
    assert_eq!(pdu.validate(MessageType::Get, 78, b"x"), Err(Error::AsnWrongType));
    assert_eq!(pdu.validate(MessageType::Response, 78, b"x"), Err(Error::RequestIdMismatch));
}

fn report_error(arcs: &[u64]) -> Result<(), Error> {
    let oid = Oid::from(arcs).unwrap();
    let frame = response(snmp::MSG_REPORT, 1, b"public", &oid);
    let pdu = Pdu::from_bytes(&frame).unwrap();
    assert_eq!(pdu.message_type, MessageType::Report);
    pdu.validate(MessageType::Response, 1, b"public")
}

#[test]
fn report_is_an_error() {
    assert_eq!(
        report_error(&[1, 3, 6, 1, 6, 3, 11, 2, 1, 3, 0]),
        Err(Error::UnexpectedReport(ReportError::BadVersion))
    );
}

#[test]
fn usm_reports_are_classified() {
    assert_eq!(
        report_error(&[1, 3, 6, 1, 6, 3, 15, 1, 1, 2, 0]),
        Err(Error::UnexpectedReport(ReportError::NotInTimeWindow))
    );
    assert_eq!(
        report_error(&[1, 3, 6, 1, 6, 3, 15, 1, 1, 5, 0]),
        Err(Error::UnexpectedReport(ReportError::AuthenticationFailure))
    );
}

#[test]
fn every_report_counter_is_classified() {
    let cases: [(&[u64], ReportError); 20] = [
        (&[1, 3, 6, 1, 6, 3, 11, 2, 1, 1, 0], ReportError::UnknownSecurityModel),
        (&[1, 3, 6, 1, 6, 3, 11, 2, 1, 2, 0], ReportError::InvalidMessage),
        (&[1, 3, 6, 1, 6, 3, 11, 2, 1, 3, 0], ReportError::BadVersion),
        (&[1, 3, 6, 1, 6, 3, 11, 2, 1, 4, 0], ReportError::UnknownReport),
        (&[1, 3, 6, 1, 6, 3, 11, 2, 1], ReportError::NoVarbindOid),
        (&[1, 3, 6, 1, 6, 3, 15, 1, 1, 1, 0], ReportError::UnsupportedSecurityLevel),
        (&[1, 3, 6, 1, 6, 3, 15, 1, 1, 2, 0], ReportError::NotInTimeWindow),
        (&[1, 3, 6, 1, 6, 3, 15, 1, 1, 3, 0], ReportError::UnknownUserName),
        (&[1, 3, 6, 1, 6, 3, 15, 1, 1, 4, 0], ReportError::UnknownEngineId),
        (&[1, 3, 6, 1, 6, 3, 15, 1, 1, 5, 0], ReportError::AuthenticationFailure),
        (&[1, 3, 6, 1, 6, 3, 15, 1, 1, 6, 0], ReportError::DecryptionError),
        (&[1, 3, 6, 1, 6, 3, 15, 1, 1, 7, 0], ReportError::UnknownReport),
        (&[1, 3, 6, 1, 6, 3, 15, 1, 1], ReportError::NoVarbindOid),
        (&[1, 3, 6, 1, 6, 3, 12, 1, 4, 0], ReportError::BadContext),
        (&[1, 3, 6, 1, 6, 3, 12, 1, 5, 0], ReportError::BadContext),
        (&[1, 3, 6, 1, 6, 3, 12, 1, 6, 0], ReportError::UnknownReport),
        (&[1, 3, 6, 1, 6, 3, 12, 1], ReportError::NoVarbindOid),
        (&[1, 3, 6, 1, 6, 3, 12, 2, 4, 0], ReportError::UnknownReport),
        (&[1, 3, 6, 1, 2, 1, 1, 1, 0], ReportError::UnknownReport),
        (&[1, 3], ReportError::UnknownReport),
    ];
    for (arcs, kind) in cases {
        assert_eq!(report_kind(&Oid::from(arcs).unwrap()), kind);
        assert_eq!(report_error(arcs), Err(Error::UnexpectedReport(kind)));
    }
}

#[test]
fn report_is_never_a_success() {
    let oid = sys_descr();
    let frame = response(snmp::MSG_REPORT, 1, b"public", &oid);
    let pdu = Pdu::from_bytes(&frame).unwrap();
    assert_eq!(
        pdu.validate(MessageType::Report, 1, b"public"),
        Err(Error::UnexpectedReport(ReportError::UnknownReport))
    );
}

#[test]
fn report_without_a_varbind() {
    let mut buf = Buf::new();
    build(Version::V2C, b"public", snmp::MSG_REPORT, 1, &[], 0, 0, &mut buf).unwrap();
    let pdu = Pdu::from_bytes(buf.as_bytes()).unwrap();
    assert_eq!(
        pdu.validate(MessageType::Response, 1, b"public"),
        Err(Error::UnexpectedReport(ReportError::NoVarbind))
    );
}

#[test]
fn report_kinds_by_sub_identifier() {
    assert_eq!(mpd_report(None), ReportError::NoVarbindOid);
    assert_eq!(mpd_report(Some(0)), ReportError::UnknownReport);
    assert_eq!(mpd_report(Some(1)), ReportError::UnknownSecurityModel);
    assert_eq!(mpd_report(Some(2)), ReportError::InvalidMessage);
    assert_eq!(mpd_report(Some(3)), ReportError::BadVersion);
    assert_eq!(mpd_report(Some(u64::MAX)), ReportError::UnknownReport);
    assert_eq!(usm_report(None), ReportError::NoVarbindOid);
    assert_eq!(usm_report(Some(0)), ReportError::UnknownReport);
    assert_eq!(usm_report(Some(1)), ReportError::UnsupportedSecurityLevel);
    assert_eq!(usm_report(Some(2)), ReportError::NotInTimeWindow);
    assert_eq!(usm_report(Some(3)), ReportError::UnknownUserName);
    assert_eq!(usm_report(Some(4)), ReportError::UnknownEngineId);
    assert_eq!(usm_report(Some(5)), ReportError::AuthenticationFailure);
    assert_eq!(usm_report(Some(6)), ReportError::DecryptionError);
    assert_eq!(usm_report(Some(7)), ReportError::UnknownReport);
    assert_eq!(target_report(None), ReportError::NoVarbindOid);
    assert_eq!(target_report(Some(3)), ReportError::UnknownReport);
    assert_eq!(target_report(Some(4)), ReportError::BadContext);
    assert_eq!(target_report(Some(5)), ReportError::BadContext);
    assert_eq!(target_report(Some(6)), ReportError::UnknownReport);
}

#[test]
fn report_tables_are_the_encoded_prefixes() {
    assert_eq!(
        Oid::from(&[1, 3, 6, 1, 6, 3, 11, 2, 1]).unwrap().as_bytes(),
        &snmp2::pdu::SNMP_MPD_STATS[..]
    );
    assert_eq!(
        Oid::from(&[1, 3, 6, 1, 6, 3, 15, 1, 1]).unwrap().as_bytes(),
        &snmp2::pdu::USM_STATS[..]
    );
    assert_eq!(
        Oid::from(&[1, 3, 6, 1, 6, 3, 12, 1]).unwrap().as_bytes(),
        &snmp2::pdu::TARGET_STATS[..]
    );
    assert_eq!(snmp2::pdu::SNMP_MPD_STATS_OID_LEN, 9);
    assert_eq!(snmp2::pdu::USM_STATS_OID_LEN, 9);
    assert_eq!(snmp2::pdu::TARGET_STATS_OID_LEN, 8);
}

#[test]
fn message_types_and_identifiers() {
    let all = [
        (MessageType::Get, 0xA0),
        (MessageType::GetNext, 0xA1),
        (MessageType::Response, 0xA2),
        (MessageType::SetRequest, 0xA3),
        (MessageType::TrapV1, 0xA4),
        (MessageType::GetBulk, 0xA5),
        (MessageType::InformRequest, 0xA6),
        (MessageType::TrapV2, 0xA7),
        (MessageType::Report, 0xA8),
    ];
    for (message_type, ident) in all {
        assert_eq!(message_type.ident(), ident);
        assert_eq!(MessageType::from_ident(ident), Ok(message_type));
    }
    assert_eq!(MessageType::from_ident(0xA9), Err(Error::AsnWrongType));
    assert_eq!(MessageType::from_ident(0x30), Err(Error::AsnWrongType));
}

#[test]
fn versions_and_numbers() {
    assert_eq!(Version::V1.number(), 0);
    assert_eq!(Version::V2C.number(), 1);
    assert_eq!(Version::V3.number(), 3);
    assert_eq!(Version::try_from(0), Ok(Version::V1));
    assert_eq!(Version::try_from(1), Ok(Version::V2C));
    assert_eq!(Version::try_from(3), Ok(Version::V3));
    assert_eq!(Version::try_from(2), Err(Error::UnsupportedVersion));
    assert_eq!(Version::try_from(-1), Err(Error::UnsupportedVersion));
}
