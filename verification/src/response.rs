//! The uniform envelope of a response, and the text of each error.

use crate::asset::AssetError;
use crate::dex::DexError;
use crate::json::{decimal, decimal_text};
use crate::primitive::{hex_encode, hex_text};
use vstd::prelude::*;
use vstd::string::StringExecFns;

verus! {

/// What a call answers: a code that is zero on success, the data of a
/// success, and the message of a failure.
#[derive(Debug)]
pub struct ServiceResponse<T> {
    pub code: u64,
    pub succeed_data: Option<T>,
    pub error_message: String,
}

impl<T> ServiceResponse<T> {
    /// The response to a call that failed.
    pub fn from_error(code: u64, error_message: String) -> (r: Self)
        ensures
            r.code == code,
            r.succeed_data is None,
            r.error_message == error_message,
    {
        ServiceResponse { code, succeed_data: None, error_message }
    }

    /// The response to a call that succeeded.
    pub fn from_succeed(succeed_data: T) -> (r: Self)
        ensures
            r.code == 0,
            r.succeed_data == Some(succeed_data),
            r.error_message@ == Seq::<char>::empty(),
    {
        ServiceResponse { code: 0, succeed_data: Some(succeed_data), error_message: String::new() }
    }

    /// Whether the call failed.
    pub fn is_error(&self) -> (yes: bool)
        ensures
            yes == (self.code != 0),
    {
        self.code != 0
    }

    /// The response to a ledger call.
    pub fn from_asset(res: Result<T, AssetError>) -> (r: Self)
        ensures
            match res {
                Ok(v) => r.code == 0 && r.succeed_data == Some(v) && r.error_message@ == Seq::<char>::empty(),
                Err(e) => r.code == e.code_of() && r.code != 0 && r.succeed_data is None && e.worded(
                    r.error_message@,
                ),
            },
    {
        match res {
            Ok(v) => ServiceResponse::from_succeed(v),
            Err(e) => ServiceResponse::from_error(e.code(), e.message()),
        }
    }

    /// The response to a call of the exchange.
    pub fn from_dex(res: Result<T, DexError>) -> (r: Self)
        ensures
            match res {
                Ok(v) => r.code == 0 && r.succeed_data == Some(v) && r.error_message@ == Seq::<char>::empty(),
                Err(e) => r.code == e.code_of() && r.code != 0 && r.succeed_data is None && e.worded(
                    r.error_message@,
                ),
            },
    {
        match res {
            Ok(v) => ServiceResponse::from_succeed(v),
            Err(e) => ServiceResponse::from_error(e.code(), e.message()),
        }
    }
}

/// Whether a byte is a decimal digit or a lower-case hexadecimal digit.
pub open spec fn is_digit(b: u8) -> bool {
    48 <= b <= 57 || 97 <= b <= 102
}

/// The characters that bytes of ASCII stand for.
pub open spec fn ascii_chars(bytes: Seq<u8>) -> Seq<char> {
    bytes.map_values(|b: u8| b as char)
}

/// The digit as text.
fn digit_str(b: u8) -> (s: &'static str)
    requires
        is_digit(b),
    ensures
        s@ == seq![b as char],
{
    proof {
        reveal_strlit("0");
        reveal_strlit("1");
        reveal_strlit("2");
        reveal_strlit("3");
        reveal_strlit("4");
        reveal_strlit("5");
        reveal_strlit("6");
        reveal_strlit("7");
        reveal_strlit("8");
        reveal_strlit("9");
        reveal_strlit("a");
        reveal_strlit("b");
        reveal_strlit("c");
        reveal_strlit("d");
        reveal_strlit("e");
        reveal_strlit("f");
    }
    let s = if b == 48 {
        "0"
    } else if b == 49 {
        "1"
    } else if b == 50 {
        "2"
    } else if b == 51 {
        "3"
    } else if b == 52 {
        "4"
    } else if b == 53 {
        "5"
    } else if b == 54 {
        "6"
    } else if b == 55 {
        "7"
    } else if b == 56 {
        "8"
    } else if b == 57 {
        "9"
    } else if b == 97 {
        "a"
    } else if b == 98 {
        "b"
    } else if b == 99 {
        "c"
    } else if b == 100 {
        "d"
    } else if b == 101 {
        "e"
    } else {
        "f"
    };
    assert(s@ =~= seq![b as char]);
    s
}

/// Appends digits, given as ASCII, to a text.
fn append_digits(text: &mut String, digits: &Vec<u8>)
    requires
        forall|i: int| 0 <= i < digits@.len() ==> is_digit(#[trigger] digits@[i]),
    ensures
        final(text)@ == old(text)@ + ascii_chars(digits@),
{
    let mut i: usize = 0;
    while i < digits.len()
        invariant
            0 <= i <= digits@.len(),
            forall|j: int| 0 <= j < digits@.len() ==> is_digit(#[trigger] digits@[j]),
            text@ == old(text)@ + ascii_chars(digits@.take(i as int)),
        decreases digits@.len() - i,
    {
        let d = digit_str(digits[i]);
        text.append(d);
        assert(ascii_chars(digits@.take(i + 1)) =~= ascii_chars(digits@.take(i as int)) + seq![
            digits@[i as int] as char,
        ]);
        assert(text@ =~= old(text)@ + ascii_chars(digits@.take(i + 1)));
        i = i + 1;
    }
    assert(digits@.take(digits@.len() as int) =~= digits@);
}

/// Decimal text is made of digits.
proof fn lemma_decimal_digits(n: nat)
    ensures
        forall|i: int| 0 <= i < decimal_text(n).len() ==> is_digit(#[trigger] decimal_text(n)[i]),
    decreases n,
{
    if n >= 10 {
        lemma_decimal_digits(n / 10);
        let head = decimal_text(n / 10);
        assert forall|i: int| 0 <= i < decimal_text(n).len() implies is_digit(#[trigger] decimal_text(n)[i]) by {
            if i < head.len() {
                assert(decimal_text(n)[i] == head[i]);
            }
        }
    }
}

/// Appends bytes in hexadecimal to a text.
fn append_hex(text: &mut String, bytes: &[u8])
    ensures
        final(text)@ == old(text)@ + ascii_chars(hex_text(bytes@)),
{
    let digits = hex_encode(bytes);
    append_digits(text, &digits);
}

/// Appends a number in decimal to a text.
fn append_decimal(text: &mut String, n: u64)
    ensures
        final(text)@ == old(text)@ + ascii_chars(decimal_text(n as nat)),
{
    let digits = decimal(n);
    proof {
        lemma_decimal_digits(n as nat);
    }
    append_digits(text, &digits);
}

/// Formats the error of `serde_json` for a message, with `format!` and the
/// error's `Debug`.
#[verifier::external_body]
fn json_error_text(e: &serde_json::Error) -> String {
    format!("{:?}", e)
}

impl AssetError {
    /// Whether `text` words the error: the fixed text of its kind, with the
    /// hash in hexadecimal and the amounts in decimal where it has any. For
    /// a failure to write JSON the text begins with the fixed words and goes
    /// on with what the JSON writer reported.
    pub open spec fn worded(self, text: Seq<char>) -> bool {
        match self {
            AssetError::JsonParse(_) => "Parsing payload to json failed "@.is_prefix_of(text),
            AssetError::AssetExisted { id } => text == "Asset "@ + ascii_chars(hex_text(id@))
                + " already exists"@,
            AssetError::AssetNotExist { id } => text == "Not found asset, id "@ + ascii_chars(hex_text(id@)),
            AssetError::InsufficientBalance { wanted, had } => text == "Not found asset, expect "@
                + ascii_chars(decimal_text(wanted as nat)) + " real "@ + ascii_chars(
                decimal_text(had as nat),
            ),
            AssetError::U64Overflow => text == "U64Overflow"@,
            AssetError::PermissionDenial => text == "PermissionDenial"@,
        }
    }

    /// The error in words.
    pub fn message(&self) -> (text: String)
        ensures
            self.worded(text@),
    {
        match self {
            AssetError::JsonParse(e) => {
                let mut text = String::from_str("Parsing payload to json failed ");
                let detail = json_error_text(e);
                text.append(detail.as_str());
                text
            },
            AssetError::AssetExisted { id } => {
                let mut text = String::from_str("Asset ");
                append_hex(&mut text, id.bytes.as_slice());
                text.append(" already exists");
                text
            },
            AssetError::AssetNotExist { id } => {
                let mut text = String::from_str("Not found asset, id ");
                append_hex(&mut text, id.bytes.as_slice());
                text
            },
            AssetError::InsufficientBalance { wanted, had } => {
                let mut text = String::from_str("Not found asset, expect ");
                append_decimal(&mut text, *wanted);
                text.append(" real ");
                append_decimal(&mut text, *had);
                text
            },
            AssetError::U64Overflow => String::from_str("U64Overflow"),
            AssetError::PermissionDenial => String::from_str("PermissionDenial"),
        }
    }
}

impl DexError {
    /// Whether `text` words the error: the name of its kind, or the words of
    /// the ledger's error that it carries.
    pub open spec fn worded(self, text: Seq<char>) -> bool {
        match self {
            DexError::JsonParse(_) => "Parsing payload to json failed "@.is_prefix_of(text),
            DexError::IllegalTrade => text == "IllegalTrade"@,
            DexError::TradeExisted => text == "TradeExisted"@,
            DexError::TradeNotExisted => text == "TradeNotExisted"@,
            DexError::OrderOverdue => text == "OrderOverdue"@,
            DexError::OrderNotExisted => text == "OrderNotExisted"@,
            DexError::Asset(e) => e.worded(text),
        }
    }

    /// The error in words.
    pub fn message(&self) -> (text: String)
        ensures
            self.worded(text@),
    {
        match self {
            DexError::JsonParse(e) => {
                let mut text = String::from_str("Parsing payload to json failed ");
                let detail = json_error_text(e);
                text.append(detail.as_str());
                text
            },
            DexError::IllegalTrade => String::from_str("IllegalTrade"),
            DexError::TradeExisted => String::from_str("TradeExisted"),
            DexError::TradeNotExisted => String::from_str("TradeNotExisted"),
            DexError::OrderOverdue => String::from_str("OrderOverdue"),
            DexError::OrderNotExisted => String::from_str("OrderNotExisted"),
            DexError::Asset(e) => e.message(),
        }
    }
}

} // verus!
