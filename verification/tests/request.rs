use audio8_runtime::request::parse_request;

fn ask(args: &[&str]) -> (bool, usize, Option<String>) {
    let r = parse_request(&args.iter().map(|a| a.to_string()).collect());
    (r.cuda, r.repeats, r.text)
}

#[test]
fn flags_and_text() {
    assert_eq!(ask(&[]), (false, 1, None));
    assert_eq!(ask(&["Hello."]), (false, 1, Some("Hello.".to_string())));
    assert_eq!(ask(&["--cuda", "Hello."]), (true, 1, Some("Hello.".to_string())));
    assert_eq!(ask(&["Hello.", "--cuda"]), (true, 1, Some("Hello.".to_string())));
    assert_eq!(ask(&["--cudax", "-x"]), (false, 1, Some("-x".to_string())));
}

#[test]
fn the_number_of_repeats_is_not_the_text() {
    assert_eq!(
        ask(&["--cuda", "--repeat", "3", "Your text here."]),
        (true, 3, Some("Your text here.".to_string()))
    );
    assert_eq!(ask(&["Text", "--repeat", "2"]), (false, 2, Some("Text".to_string())));
    assert_eq!(ask(&["--repeat", "2"]), (false, 2, None));
}

#[test]
fn repeats_that_are_no_number() {
    assert_eq!(ask(&["--repeat"]), (false, 1, None));
    assert_eq!(ask(&["--repeat", "many"]), (false, 1, Some("many".to_string())));
    assert_eq!(ask(&["--repeat", "--cuda", "a"]), (true, 1, Some("a".to_string())));
    assert_eq!(ask(&["--repeat", "0", "5"]), (false, 0, Some("5".to_string())));
}
