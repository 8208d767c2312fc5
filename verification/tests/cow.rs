use bincode_next::config::standard;
use bincode_next::{borrow_decode_from_slice, decode_from_slice, encode_to_vec};
use std::borrow::Cow;

#[test]
fn test_cow_round_trip() {
    let start = Cow::Borrowed("Foo");
    let encoded = encode_to_vec(&start, standard()).unwrap();
    let (end, _) = borrow_decode_from_slice::<Cow<'_, str>, _>(&encoded, standard()).unwrap();
    assert_eq!(start, end);
    let (end, _) = decode_from_slice::<Cow<'_, str>, _>(&encoded, standard()).unwrap();
    assert_eq!(start, end);
}

#[test]
fn borrow_decoded_cow_points_into_the_input() {
    let src = [3u8, 70, 111, 111];
    let (end, n) = borrow_decode_from_slice::<Cow<'_, str>, _>(&src, standard()).unwrap();
    assert_eq!(n, 4);
    match end {
        Cow::Borrowed(s) => {
            assert_eq!(s, "Foo");
            assert_eq!(s.as_ptr(), src[1..].as_ptr());
        },
        Cow::Owned(_) => panic!("expected a borrowed value"),
    }
    let (end, _) = decode_from_slice::<Cow<'_, str>, _>(&src, standard()).unwrap();
    assert!(matches!(end, Cow::Owned(_)));
}
