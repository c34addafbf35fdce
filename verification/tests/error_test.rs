use pick_up_sound_text::error::{error_causes, transport_error, Error, TransportFailure};
use std::fmt;

#[derive(Debug)]
struct Leaf(&'static str);

impl fmt::Display for Leaf {
    fn fmt(&self, f: &mut fmt::Formatter<'_>) -> fmt::Result {
        f.write_str(self.0)
    }
}

impl std::error::Error for Leaf {}

#[derive(Debug)]
struct Middle(&'static str, Leaf);

impl fmt::Display for Middle {
    fn fmt(&self, f: &mut fmt::Formatter<'_>) -> fmt::Result {
        f.write_str(self.0)
    }
}

impl std::error::Error for Middle {
    fn source(&self) -> Option<&(dyn std::error::Error + 'static)> {
        Some(&self.1)
    }
}

fn causes(e: &(dyn std::error::Error + 'static)) -> Vec<String> {
    let mut parts = Vec::new();
    let mut cur = e.source();
    while let Some(err) = cur {
        parts.push(err.to_string());
        cur = err.source();
    }
    parts
}

#[test]
fn error_causes_walks_full_chain() {
    let e = Middle("middle", Leaf("leaf"));
    assert_eq!(error_causes(&causes(&e)), "leaf");
}

#[test]
fn error_causes_empty_when_no_source() {
    let e = Leaf("alone");
    assert_eq!(error_causes(&causes(&e)), "");
}

#[test]
fn causes_are_joined_outermost_first() {
    let list = vec!["a".to_string(), "b".to_string(), "c".to_string()];
    assert_eq!(error_causes(&list), "a → b → c");
}

fn failure(timeout: bool, connect: bool, causes: Vec<String>) -> TransportFailure {
    TransportFailure { message: "error sending request".to_string(), timeout, connect, causes }
}

#[test]
fn a_failed_transfer_tells_its_class_and_causes() {
    assert_eq!(transport_error(&failure(true, true, vec![])), "error sending request [timeout]");
    assert_eq!(transport_error(&failure(false, true, vec![])), "error sending request [connect]");
    assert_eq!(
        transport_error(&failure(false, false, vec![])),
        "error sending request [transport]"
    );
    assert_eq!(
        transport_error(&failure(false, true, vec!["x".to_string(), "y".to_string()])),
        "error sending request [connect: x → y]"
    );
}

#[test]
fn every_error_has_its_prefix() {
    assert_eq!(Error::Io("x".to_string()).message(), "IO error: x");
    assert_eq!(Error::Serialization("x".to_string()).message(), "Serialization error: x");
    assert_eq!(Error::AudioSource("x".to_string()).message(), "Audio source error: x");
    assert_eq!(Error::Asr("x".to_string()).message(), "ASR error: x");
    assert_eq!(Error::Translate("x".to_string()).message(), "Translation error: x");
    assert_eq!(Error::Config("x".to_string()).message(), "Configuration error: x");
}
