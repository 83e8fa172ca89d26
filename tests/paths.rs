use avatar_relay::data_file_name;

#[test]
fn info_suffix_becomes_data() {
    assert_eq!(data_file_name(b"abc__info"), Some(b"abc__data".to_vec()));
    assert_eq!(data_file_name(b"__info"), Some(b"__data".to_vec()));
}

#[test]
fn only_the_trailing_suffix_is_replaced() {
    assert_eq!(data_file_name(b"x__info__info"), Some(b"x__info__data".to_vec()));
}

#[test]
fn other_names_give_nothing() {
    assert_eq!(data_file_name(b"abc__data"), None);
    assert_eq!(data_file_name(b"abc__info.tmp"), None);
    assert_eq!(data_file_name(b"_info"), None);
    assert_eq!(data_file_name(b""), None);
    assert_eq!(data_file_name(b"abc__INFO"), None);
}
