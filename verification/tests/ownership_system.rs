use data_reduction::strings::{calculate_length, change, first_sentence, first_word, longest};

#[test]
fn test_immutable_borrowing_example() {
    let s = String::from("hello");
    let len = calculate_length(&s);
    assert_eq!(len, 5);
}

#[test]
fn test_mutable_borrowing_example() {
    let mut s = String::from("hello");
    change(&mut s);
    assert_eq!(s, "hello, Master    https://linktr.ee/cryptomastertime");
}

#[test]
fn test_borrowing_rules_example() {
    let mut s = String::from("hello");
    {
        let r1 = &s;
        let r2 = &s;
        assert_eq!(r1, "hello");
        assert_eq!(r2, "hello");
    }

    let r3 = &mut s;
    r3.push_str(", world");
    assert_eq!(r3, "hello, world");
}

#[test]
fn test_lifetimes_example() {
    let string1 = String::from("long string is long");
    let string2 = "xyz";
    let result = longest(string1.as_str(), string2);
    assert_eq!(result, "long string is long");
}

#[test]
fn test_explicit_lifetimes_example() {
    let novel = String::from("Call me Jeff. Some years ago...");
    let i = first_sentence(&novel);
    assert_eq!(i.part, "Call me Jeff");
}

#[test]
fn test_lifetime_elision_example() {
    let my_string = String::from("hello world");
    let word = first_word(&my_string);
    assert_eq!(word, "hello");
}

#[test]
fn calculate_length_counts_bytes_not_characters() {
    let s = String::from("héllo");
    assert_eq!(calculate_length(&s), 6);
    assert_eq!(calculate_length(&String::new()), 0);
}

#[test]
fn longest_prefers_the_second_on_a_tie() {
    let x = String::from("abc");
    let y = String::from("xyz");
    let r = longest(x.as_str(), y.as_str());
    assert_eq!(r.as_ptr(), y.as_str().as_ptr());
    assert_eq!(longest("ab", "xyz"), "xyz");
    assert_eq!(longest("abcd", "xyz"), "abcd");
}

#[test]
fn first_word_without_a_space_is_the_whole_text() {
    assert_eq!(first_word("hello"), "hello");
    assert_eq!(first_word(""), "");
}

#[test]
fn first_word_stops_at_the_first_space_only() {
    assert_eq!(first_word(" leading"), "");
    assert_eq!(first_word("one two three"), "one");
    assert_eq!(first_word("héllo wörld"), "héllo");
}

#[test]
fn first_sentence_without_a_full_stop_is_the_whole_text() {
    assert_eq!(first_sentence("no stop here").part, "no stop here");
    assert_eq!(first_sentence(".starts").part, "");
}
