use dns_codec::cli::{parse_resolver, UsageError};

fn args(words: &[&str]) -> Vec<String> {
    words.iter().map(|word| word.to_string()).collect()
}

#[test]
fn no_argument_means_no_upstream() {
    assert_eq!(parse_resolver(&args(&["server"])), Ok(None));
}

#[test]
fn resolver_option_names_the_upstream() {
    assert_eq!(
        parse_resolver(&args(&["server", "--resolver", "1.1.1.1:53"])),
        Ok(Some("1.1.1.1:53".to_string()))
    );
    assert_eq!(parse_resolver(&args(&["server", "--resolver", ""])), Ok(Some(String::new())));
}

#[test]
fn other_option_is_unrecognized() {
    assert_eq!(
        parse_resolver(&args(&["server", "--upstream", "1.1.1.1:53"])),
        Err(UsageError::UnrecognizedOption)
    );
    assert_eq!(
        parse_resolver(&args(&["server", "--resolver ", "1.1.1.1:53"])),
        Err(UsageError::UnrecognizedOption)
    );
}

#[test]
fn other_argument_counts_are_refused() {
    assert_eq!(parse_resolver(&args(&[])), Err(UsageError::WrongArguments));
    assert_eq!(parse_resolver(&args(&["server", "--resolver"])), Err(UsageError::WrongArguments));
    assert_eq!(
        parse_resolver(&args(&["server", "--resolver", "a", "b"])),
        Err(UsageError::WrongArguments)
    );
}
