use scriptkeeper::tracee_memory::data_to_bytes;
use scriptkeeper::tracee_memory::data_to_string;
use scriptkeeper::tracee_memory::string_to_data;

#[test]
fn reads_null_terminated_strings_from_one_word() {
    let data = vec![vec![102, 111, 111, 0, 0, 0, 0, 0]];
    assert_eq!(data_to_string(&data).unwrap(), "foo");
}

#[test]
fn works_for_multiple_words() {
    let data = vec![
        vec![97, 98, 99, 100, 101, 102, 103, 104],
        vec![105, 0, 0, 0, 0, 0, 0, 0],
    ];
    assert_eq!(data_to_string(&data).unwrap(), "abcdefghi");
}

#[test]
fn works_when_null_is_on_the_edge() {
    let data = vec![
        vec![97, 98, 99, 100, 101, 102, 103, 104],
        vec![0, 0, 0, 0, 0, 0, 0, 0],
    ];
    assert_eq!(data_to_string(&data).unwrap(), "abcdefgh");
}

#[test]
fn fails_on_invalid_utf8() {
    let data = vec![vec![0xff, 0xfe, 0, 0, 0, 0, 0, 0]];
    let error = data_to_string(&data).unwrap_err();
    assert_eq!(error.message, b"tracee memory holds invalid utf-8".to_vec());
}

#[test]
fn packs_a_string_into_nul_padded_words() {
    let words = string_to_data("foo").unwrap();
    assert_eq!(words, vec![vec![102, 111, 111, 0, 0, 0, 0, 0]]);
}

#[test]
fn packs_a_word_sized_string_with_a_terminator_word() {
    let words = string_to_data("abcdefgh").unwrap();
    assert_eq!(
        words,
        vec![
            vec![97, 98, 99, 100, 101, 102, 103, 104],
            vec![0, 0, 0, 0, 0, 0, 0, 0],
        ]
    );
}

#[test]
fn rejects_strings_holding_nul_bytes() {
    let error = string_to_data("a\0b").unwrap_err();
    assert_eq!(error.message, b"strings must not hold NUL bytes".to_vec());
}

#[test]
fn packing_and_reading_back_round_trips() {
    let words = string_to_data("hello world, longer than one word").unwrap();
    let bytes = data_to_bytes(&words);
    assert_eq!(bytes, b"hello world, longer than one word".to_vec());
}

#[test]
fn reading_stops_at_the_first_nul_across_words() {
    let data = vec![
        vec![104, 105, 0, 120, 120, 120, 120, 120],
        vec![121, 121, 121, 121, 121, 121, 121, 121],
    ];
    assert_eq!(data_to_bytes(&data), b"hi".to_vec());
}
