use coogler::query::{
    find_delimiter, nonempty_text, split_query, Query, QueryError, SignatureTokenizer,
};

/// Splits into words and single punctuation marks, as a C lexer would for
/// the simple fragments used here.
struct WordTokenizer;

impl SignatureTokenizer for WordTokenizer {
    fn tokenize(&self, fragment: &str) -> Result<String, QueryError> {
        let mut tokens: Vec<String> = Vec::new();
        let mut word = String::new();
        for c in fragment.chars() {
            if c.is_alphanumeric() || c == '_' {
                word.push(c);
                continue;
            }
            if !word.is_empty() {
                tokens.push(word.clone());
                word.clear();
            }
            if c == '$' {
                return Err(QueryError::InvalidSignatureSyntax);
            }
            if !c.is_whitespace() {
                tokens.push(c.to_string());
            }
        }
        if !word.is_empty() {
            tokens.push(word);
        }
        Ok(tokens.join(" "))
    }
}

/// Hands the fragment back as it is and keeps what it was given.
struct RecordingTokenizer {
    seen: std::cell::RefCell<Vec<String>>,
}

impl SignatureTokenizer for RecordingTokenizer {
    fn tokenize(&self, fragment: &str) -> Result<String, QueryError> {
        self.seen.borrow_mut().push(fragment.to_string());
        Ok(fragment.to_string())
    }
}

/// Hands the fragment back as it is.
struct EchoTokenizer;

impl SignatureTokenizer for EchoTokenizer {
    fn tokenize(&self, fragment: &str) -> Result<String, QueryError> {
        Ok(fragment.to_string())
    }
}

fn parse(raw: &str) -> Query {
    match Query::parse(raw, &WordTokenizer) {
        Ok(query) => query,
        Err(_) => panic!("query should parse"),
    }
}

#[test]
fn find_delimiter_finds_the_first() {
    let chars: Vec<char> = "a::b::c".chars().collect();
    assert_eq!(find_delimiter(&chars), Some(1));
    let chars: Vec<char> = "a:b".chars().collect();
    assert_eq!(find_delimiter(&chars), None);
    let chars: Vec<char> = ":::".chars().collect();
    assert_eq!(find_delimiter(&chars), Some(0));
    let chars: Vec<char> = "".chars().collect();
    assert_eq!(find_delimiter(&chars), None);
    let chars: Vec<char> = "ab:".chars().collect();
    assert_eq!(find_delimiter(&chars), None);
}

#[test]
fn split_query_at_first_delimiter() {
    assert_eq!(
        split_query("foo::int(char*)"),
        (Some("foo".to_string()), "int(char*)".to_string())
    );
    assert_eq!(split_query("foo::"), (Some("foo".to_string()), "".to_string()));
    assert_eq!(split_query("::int"), (Some("".to_string()), "int".to_string()));
    assert_eq!(split_query("int(char*)"), (None, "int(char*)".to_string()));
    assert_eq!(split_query(""), (None, "".to_string()));
    assert_eq!(split_query("a::b::c"), (Some("a".to_string()), "b::c".to_string()));
    assert_eq!(split_query(" a :: b "), (Some(" a ".to_string()), " b ".to_string()));
    assert_eq!(split_query(":::"), (Some("".to_string()), ":".to_string()));
}

#[test]
fn nonempty_text_drops_the_empty_string() {
    assert_eq!(nonempty_text(String::new()), None);
    assert_eq!(nonempty_text(" ".to_string()), Some(" ".to_string()));
    assert_eq!(nonempty_text("x".to_string()), Some("x".to_string()));
}

#[test]
fn parse_name_only() {
    let query = parse("foo::");
    assert_eq!(query.name.as_deref(), Some("foo"));
    assert_eq!(query.normalised_signature, None);
}

#[test]
fn parse_signature_only_with_and_without_delimiter() {
    let with = parse("::int(char*)");
    let without = parse("int(char*)");
    assert_eq!(with.name, None);
    assert_eq!(without.name, None);
    assert_eq!(with.normalised_signature.as_deref(), Some("int ( char * )"));
    assert_eq!(with.normalised_signature, without.normalised_signature);
}

#[test]
fn parse_name_and_signature() {
    let query = parse("foo::int(char*)");
    assert_eq!(query.name.as_deref(), Some("foo"));
    assert_eq!(query.normalised_signature.as_deref(), Some("int ( char * )"));
}

#[test]
fn parse_empty_query_has_no_part() {
    let query = parse("");
    assert_eq!(query.name, None);
    assert_eq!(query.normalised_signature, None);
    let query = parse("::");
    assert_eq!(query.name, None);
    assert_eq!(query.normalised_signature, None);
    let query = parse("   ::   ");
    assert_eq!(query.name, None);
    assert_eq!(query.normalised_signature, None);
}

#[test]
fn parse_trims_the_name_and_keeps_its_case() {
    let query = parse("  Foo Bar \t::");
    assert_eq!(query.name.as_deref(), Some("Foo Bar"));
}

#[test]
fn parse_hands_the_signature_part_to_the_tokenizer_untouched() {
    let query = match Query::parse("name:: int ( x ) ", &EchoTokenizer) {
        Ok(query) => query,
        Err(_) => panic!("query should parse"),
    };
    assert_eq!(query.name.as_deref(), Some("name"));
    assert_eq!(query.normalised_signature.as_deref(), Some(" int ( x ) "));
    let query = match Query::parse("a::b::c", &EchoTokenizer) {
        Ok(query) => query,
        Err(_) => panic!("query should parse"),
    };
    assert_eq!(query.name.as_deref(), Some("a"));
    assert_eq!(query.normalised_signature.as_deref(), Some("b::c"));
}

#[test]
fn parse_fails_where_the_tokenizer_fails() {
    assert!(matches!(
        Query::parse("foo::int($)", &WordTokenizer),
        Err(QueryError::InvalidSignatureSyntax)
    ));
    assert!(matches!(
        Query::parse("$", &WordTokenizer),
        Err(QueryError::InvalidSignatureSyntax)
    ));
    // The name part never reaches the tokenizer.
    assert!(Query::parse("$::int", &WordTokenizer).is_ok());
}

#[test]
fn from_parts_builds_each_part() {
    let query = match Query::from_parts(Some(" add ".to_string()), Ok("int ( int )".to_string())) {
        Ok(query) => query,
        Err(_) => panic!("parts should give a query"),
    };
    assert_eq!(query.name.as_deref(), Some("add"));
    assert_eq!(query.normalised_signature.as_deref(), Some("int ( int )"));
    let query = match Query::from_parts(Some("  ".to_string()), Ok(String::new())) {
        Ok(query) => query,
        Err(_) => panic!("parts should give a query"),
    };
    assert_eq!(query.name, None);
    assert_eq!(query.normalised_signature, None);
    let query = match Query::from_parts(None, Ok("x".to_string())) {
        Ok(query) => query,
        Err(_) => panic!("parts should give a query"),
    };
    assert_eq!(query.name, None);
    assert_eq!(query.normalised_signature.as_deref(), Some("x"));
}

#[test]
fn from_parts_passes_the_error_on() {
    assert!(matches!(
        Query::from_parts(Some("add".to_string()), Err(QueryError::InvalidSignatureSyntax)),
        Err(QueryError::InvalidSignatureSyntax)
    ));
}

#[test]
fn parse_asks_the_tokenizer_once_for_the_signature_part() {
    for (raw, part) in [
        ("foo::int(char*)", "int(char*)"),
        ("foo::", ""),
        ("int(char*)", "int(char*)"),
        ("", ""),
        ("a::b::c", "b::c"),
        (" a :: b ", " b "),
    ] {
        let tokenizer = RecordingTokenizer { seen: std::cell::RefCell::new(Vec::new()) };
        let query = match Query::parse(raw, &tokenizer) {
            Ok(query) => query,
            Err(_) => panic!("query should parse"),
        };
        assert_eq!(*tokenizer.seen.borrow(), vec![part.to_string()]);
        let expected = if part.is_empty() { None } else { Some(part.to_string()) };
        assert_eq!(query.normalised_signature, expected);
    }
}
