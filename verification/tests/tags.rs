use guinyot::serialization::TransferTag as T;
use guinyot::serialization::{InvalidTransferTag, TransferTag};
use guinyot::{frame_message, unframe_message, END_OF_COMM};

#[test]
pub fn check_tags_are_different() {
    let tags = [T::State, T::Info, T::Prompt, T::Response];
    let mut t1 = 0;
    while t1 < tags.len() {
        let mut t2 = 0;
        while t2 < tags.len() {
            if t1 == t2 {
                t2 += 1;
                continue;
            }
            assert!(u8::from(tags[t1]) != u8::from(tags[t2]));
            t2 += 1;
        }
        t1 += 1;
    }
}

#[test]
fn tag_bytes_are_the_ascii_initials() {
    assert_eq!(u8::from(TransferTag::State), b'S');
    assert_eq!(u8::from(TransferTag::Info), b'I');
    assert_eq!(u8::from(TransferTag::Prompt), b'P');
    assert_eq!(u8::from(TransferTag::Response), b'R');
    assert_eq!(char::from(TransferTag::Prompt), 'P');
    assert_eq!(char::from(TransferTag::State), 'S');
    assert_eq!(TransferTag::Info.serialize(), [b'I']);
}

#[test]
fn tag_roundtrip_for_every_tag() {
    for t in [TransferTag::State, TransferTag::Info, TransferTag::Prompt, TransferTag::Response] {
        assert_eq!(TransferTag::deserialize(&t.serialize()), Ok(t));
    }
}

#[test]
fn tag_deserialize_errors() {
    assert_eq!(
        TransferTag::deserialize(b"SS"),
        Err(InvalidTransferTag::InvalidAmountOfBytes(2))
    );
    assert_eq!(
        TransferTag::deserialize(&[]),
        Err(InvalidTransferTag::InvalidAmountOfBytes(0))
    );
    assert_eq!(
        TransferTag::deserialize(b"X"),
        Err(InvalidTransferTag::Unrecognized(b'X'))
    );
    assert_eq!(TransferTag::deserialize(b"R"), Ok(TransferTag::Response));
}

#[test]
fn framing_adds_tag_and_end_byte() {
    assert_eq!(END_OF_COMM, b'\n');
    assert_eq!(
        frame_message(TransferTag::Response, &[1, 2]),
        vec![b'R', 1, 2, b'\n']
    );
    assert_eq!(frame_message(TransferTag::Info, &[]), vec![b'I', b'\n']);
}

#[test]
fn unframing_drops_the_end_byte() {
    assert_eq!(unframe_message(vec![b'R', 1, 2, b'\n']), vec![b'R', 1, 2]);
    assert_eq!(unframe_message(vec![b'a', b'b', b'\n']), b"ab".to_vec());
    assert_eq!(unframe_message(vec![b'R', 1, 2]), Vec::<u8>::new());
    assert_eq!(unframe_message(vec![]), Vec::<u8>::new());
    assert_eq!(unframe_message(vec![b'\n']), Vec::<u8>::new());
    assert_eq!(unframe_message(vec![b'R', 255]), Vec::<u8>::new());
}

#[test]
fn unframe_undoes_frame() {
    let payload = [7u8, 0, 9, 254];
    let framed = frame_message(TransferTag::State, &payload);
    assert_eq!(unframe_message(framed), vec![b'S', 7, 0, 9, 254]);
}
