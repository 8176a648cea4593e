use snmp2::rasn::{try_as_oid, IntoRasnIterator};
use snmp2::{Buf, Error, Oid, Value, Varbinds};

fn list(values: &[(&[u32], Value)]) -> Vec<u8> {
    let mut buf = Buf::new();
    for (arcs, value) in values.iter().rev() {
        buf.push_sequence(|buf| {
            snmp2::pdu::push_value(buf, value);
            buf.push_object_identifier(arcs);
        });
    }
    assert!(!buf.overflowed());
    buf.as_bytes().to_vec()
}

#[test]
fn rasn_iterator_yields_names_and_values() {
    let bytes = list(&[
        (&[1, 3, 6, 1, 2, 1, 1, 1, 0], Value::Null),
        (&[1, 3, 6, 1, 4, 1, 2680, 1], Value::NoSuchObject),
        (&[1, 3, 6, 1, 2, 1, 1, 3, 0], Value::EndOfMibView),
        (&[1, 3, 6, 1, 2, 1, 1, 4, 0], Value::NoSuchInstance),
    ]);
    let mut iter = Varbinds::from_bytes(&bytes).into_rasn_iter();
    let first = iter.next().unwrap();
    let name: &[u32] = &first.name;
    assert_eq!(name, &[1, 3, 6, 1, 2, 1, 1, 1, 0]);
    assert_eq!(first.value, rasn_snmp::v2::VarBindValue::Unspecified);
    let second = iter.next().unwrap();
    let name: &[u32] = &second.name;
    assert_eq!(name, &[1, 3, 6, 1, 4, 1, 2680, 1]);
    assert_eq!(second.value, rasn_snmp::v2::VarBindValue::NoSuchObject);
    assert_eq!(iter.next().unwrap().value, rasn_snmp::v2::VarBindValue::EndOfMibView);
    assert_eq!(iter.next().unwrap().value, rasn_snmp::v2::VarBindValue::NoSuchInstance);
    assert!(iter.next().is_none());
    assert!(iter.next().is_none());
}

#[test]
fn rasn_iterator_reads_values_with_content() {
    let bytes = list(&[(&[1, 3, 6, 1, 2, 1, 1, 5, 0], Value::Integer(-77))]);
    let mut iter = Varbinds::from_bytes(&bytes).into_rasn_iter();
    let varbind = iter.next().unwrap();
    let again: rasn_snmp::v2::VarBindValue = rasn::ber::decode(&[2, 1, 0xB3]).unwrap();
    assert_eq!(varbind.value, again);
    let other: rasn_snmp::v2::VarBindValue = rasn::ber::decode(&[2, 1, 0x4D]).unwrap();
    assert_ne!(varbind.value, other);
    assert!(iter.next().is_none());
}

#[test]
fn rasn_iterator_stops_at_what_it_cannot_read() {
    assert!(Varbinds::from_bytes(&[]).into_rasn_iter().next().is_none());
    assert!(Varbinds::from_bytes(&[5, 0]).into_rasn_iter().next().is_none());
    // A SEQUENCE without a name.
    assert!(Varbinds::from_bytes(&[0x30, 2, 5, 0]).into_rasn_iter().next().is_none());
    // A name without a value.
    assert!(Varbinds::from_bytes(&[0x30, 4, 6, 2, 0x2B, 6]).into_rasn_iter().next().is_none());
}

#[test]
fn try_as_oid_encodes_like_oid_from() {
    let oid = try_as_oid(&[1, 3, 6, 1, 4, 1, 2680, 1]).unwrap();
    assert_eq!(oid, Oid::from(&[1, 3, 6, 1, 4, 1, 2680, 1]).unwrap());
    assert_eq!(oid.as_bytes(), &[0x2Bu8, 6, 1, 4, 1, 0x94, 0x78, 1][..]);
    assert_eq!(
        try_as_oid(&[1, 3, u32::MAX]).unwrap().as_bytes(),
        &[0x2Bu8, 0x8F, 0xFF, 0xFF, 0xFF, 0x7F][..]
    );
    assert_eq!(try_as_oid(&[1]), Err(Error::ValueUnrepresentable));
    assert_eq!(try_as_oid(&[4, 1]), Err(Error::ValueUnrepresentable));
}

#[test]
fn own_and_outside_encoders_agree() {
    let cases: [&[u32]; 4] = [
        &[2, 39, 0],
        &[1, 3, 6, 1, 2, 1, 1, 1, 0],
        &[1, 3, 127, 128, 16383, 16384, 2097151, 2097152, u32::MAX],
        &[1, 3, 6, 1, 4, 1, 2680, 1, 2, 7, 3, 2, 0],
    ];
    for arcs in cases {
        let mut buf = Buf::new();
        buf.push_object_identifier(arcs);
        let oid = try_as_oid(arcs).unwrap();
        assert_eq!(&buf.as_bytes()[2..], oid.as_bytes());
        for (n, arc) in arcs.iter().enumerate() {
            assert_eq!(oid.nth(n), Some(*arc as u64));
        }
        assert_eq!(oid.nth(arcs.len()), None);
    }
}
