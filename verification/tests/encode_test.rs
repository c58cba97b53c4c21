use jtoo::{Encode, EncodeError, Encoder};

struct Struct;
impl Encode for Struct {
    fn encode_using(&self, encoder: &mut Encoder) -> Result<(), EncodeError> {
        encoder.open_string()?;
        encoder.append_string("string1")?;
        encoder.close_string()
    }
}

struct Unclosed;
impl Encode for Unclosed {
    fn encode_using(&self, encoder: &mut Encoder) -> Result<(), EncodeError> {
        encoder.open_string()
    }
}

#[test]
fn encode_ok() {
    assert_eq!(Struct {}.encode(), Ok("\"string1\"".to_string()));
}

#[test]
fn encode_err() {
    assert_eq!(Unclosed {}.encode(), Err(EncodeError::UnclosedString));
}
