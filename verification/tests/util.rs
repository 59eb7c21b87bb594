use binjs_io::util::{random_temporary_file_name, temporary_file_name, ATTEMPTS};

#[test]
fn temporary_file_name_has_its_parts_in_order() {
    assert_eq!(temporary_file_name('a', "js"), "binjs-aaaaaaaa.js");
    assert_eq!(temporary_file_name('7', "binjs"), "binjs-77777777.binjs");
    assert_eq!(temporary_file_name('Z', ""), "binjs-ZZZZZZZZ.");
    assert_eq!(temporary_file_name('q', "tar.gz"), "binjs-qqqqqqqq.tar.gz");
}

#[test]
fn random_temporary_file_name_is_marked_by_one_letter_or_digit() {
    for _ in 0..200 {
        let name = random_temporary_file_name("txt");
        assert_eq!(name.len(), "binjs-".len() + 8 + ".txt".len());
        assert!(name.starts_with("binjs-"));
        assert!(name.ends_with(".txt"));
        let mark: Vec<char> = name["binjs-".len()..name.len() - ".txt".len()].chars().collect();
        assert_eq!(mark.len(), 8);
        assert!(mark[0].is_ascii_alphanumeric());
        assert!(mark.iter().all(|c| *c == mark[0]));
        assert_eq!(name, temporary_file_name(mark[0], "txt"));
    }
}

#[test]
fn random_temporary_file_names_differ() {
    let first = random_temporary_file_name("js");
    let differs = (0..200).any(|_| random_temporary_file_name("js") != first);
    assert!(differs);
}

#[test]
fn attempts_are_limited() {
    assert_eq!(ATTEMPTS, 1024);
}
