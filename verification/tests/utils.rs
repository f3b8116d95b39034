use station::utils::Loggable;

#[test]
fn make_log_hands_out_ok_and_some() {
    let ok: Result<u8, String> = Ok(3);
    assert_eq!(ok.make_log("ctx"), Some(3));
    let err: Result<u8, String> = Err("bad".to_string());
    assert_eq!(err.make_log("ctx"), None);
    assert_eq!(Some(4u8).make_log("ctx"), Some(4));
    assert_eq!(None::<u8>.make_log("ctx"), None);
}
