//! The decisions around evaluating JavaScript: the module that runs the
//! code, which results have a JSON form, and the capture slot through which
//! server-rendered HTML takes the place of the script's own result.

use vstd::prelude::*;
use crate::entries::hex_digits;
use crate::json::JsonValue;

verus! {

/// A failed evaluation: the script threw or did not parse (`Execution`),
/// or its result has no JSON form (`Deserialize`).
pub enum RuntimeError {
    Execution(String),
    Deserialize(String),
}

impl RuntimeError {
    pub fn execution(message: String) -> (r: RuntimeError)
        ensures
            r matches RuntimeError::Execution(m) && m@ == message@,
    {
        RuntimeError::Execution(message)
    }

    pub fn deserialize(message: String) -> (r: RuntimeError)
        ensures
            r matches RuntimeError::Deserialize(m) && m@ == message@,
    {
        RuntimeError::Deserialize(message)
    }

    pub fn is_execution(&self) -> (r: bool)
        ensures
            r == (self is Execution),
    {
        match self {
            RuntimeError::Execution(_) => true,
            RuntimeError::Deserialize(_) => false,
        }
    }

    pub fn message(&self) -> (r: String)
        ensures
            r@ == match self {
                RuntimeError::Execution(m) => m@,
                RuntimeError::Deserialize(m) => m@,
            },
    {
        match self {
            RuntimeError::Execution(m) => m.clone(),
            RuntimeError::Deserialize(m) => m.clone(),
        }
    }
}

pub open spec fn hex_digit(n: u32) -> char {
    hex_digits().index(n as int)
}

/// How JSON writes the character `c` inside a string: `"` and `\` and the
/// control characters escaped, with the short escapes where JSON has them.
pub open spec fn json_escape(c: char) -> Seq<char> {
    if c == '"' {
        seq!['\\', '"']
    } else if c == '\\' {
        seq!['\\', '\\']
    } else if c == '\n' {
        seq!['\\', 'n']
    } else if c == '\r' {
        seq!['\\', 'r']
    } else if c == '\t' {
        seq!['\\', 't']
    } else if c == '\u{8}' {
        seq!['\\', 'b']
    } else if c == '\u{c}' {
        seq!['\\', 'f']
    } else if ' ' > c {
        let code = c as u32;
        seq!['\\', 'u', '0', '0', hex_digit(code / 16), hex_digit(code % 16)]
    } else {
        seq![c]
    }
}

pub open spec fn json_escaped(s: Seq<char>) -> Seq<char>
    decreases s.len(),
{
    if s.len() == 0 {
        seq![]
    } else {
        json_escaped(s.drop_last()) + json_escape(s.last())
    }
}

/// `s` as a JSON string literal.
pub open spec fn json_string(s: Seq<char>) -> Seq<char> {
    seq!['"'] + json_escaped(s) + seq!['"']
}

/// Relies on `serde_json::to_string` on a `str`: the text in double
/// quotes, with `"`, `\` and the control characters escaped (`\b`, `\t`,
/// `\n`, `\f`, `\r`, else `\u00XX` in lowercase hexadecimal). A `str`
/// is written into a byte vector, which cannot fail.
#[verifier::external_body]
fn quote_json(s: &str) -> (r: Result<String, String>)
    ensures
        r is Ok,
        r matches Ok(t) ==> t@ == json_string(s@),
{
    match serde_json::to_string(s) {
        Ok(t) => Ok(t),
        Err(e) => Err(format!("{e:?}")),
    }
}

pub const EVAL_MODULE_HEAD: &'static str = "import { runCode } from \"gdansk:runtime\";\nglobalThis.__gdansk_last_result = runCode(";

pub const EVAL_MODULE_TAIL: &'static str = ");";

/// The script that reads the result of the evaluated code.
pub const EVAL_RESULT_SCRIPT: &'static str = "globalThis.__gdansk_last_result";

/// The module that evaluates `code` through the runtime module and keeps
/// its result in a global.
pub open spec fn eval_module(code: Seq<char>) -> Seq<char> {
    EVAL_MODULE_HEAD@ + json_string(code) + EVAL_MODULE_TAIL@
}

/// The module that evaluates `code`.
pub fn eval_module_source(code: &str) -> (r: Result<String, RuntimeError>)
    ensures
        r matches Ok(m) && m@ == eval_module(code@),
{
    match quote_json(code) {
        Ok(q) => {
            let mut m = String::from_str(EVAL_MODULE_HEAD);
            m.append(q.as_str());
            m.append(EVAL_MODULE_TAIL);
            Ok(m)
        },
        Err(e) => {
            let mut m = String::from_str("Execution error: ");
            m.append(e.as_str());
            Err(RuntimeError::Execution(m))
        },
    }
}

/// What kind of value the evaluated code produced, as the engine reports it.
#[derive(Clone, Copy, PartialEq, Eq, Structural, Debug)]
pub enum ValueKind {
    Undefined,
    Function,
    Symbol,
    BigInt,
    Promise,
    /// A number; `finite` is false for NaN and the infinities.
    Number { finite: bool },
    /// Null, a boolean, a string, an array or a plain object.
    Other,
}

/// Whether values of this kind have a JSON form.
pub open spec fn has_json_form(kind: ValueKind) -> bool {
    match kind {
        ValueKind::Number { finite } => finite,
        ValueKind::Other => true,
        _ => false,
    }
}

pub open spec fn msg_unsupported() -> Seq<char> {
    "Cannot deserialize value: unsupported JavaScript value"@
}

/// Rejects, before any conversion, a value that has no JSON form: a
/// function, symbol, bigint, promise, `undefined`, NaN or an infinity.
pub fn check_value_kind(kind: ValueKind) -> (r: Result<(), RuntimeError>)
    ensures
        r is Ok <==> has_json_form(kind),
        r matches Err(e) ==> e matches RuntimeError::Deserialize(m) && m@ == msg_unsupported(),
{
    match kind {
        ValueKind::Number { finite } => if finite {
            Ok(())
        } else {
            Err(RuntimeError::Deserialize(String::from_str(
                "Cannot deserialize value: unsupported JavaScript value",
            )))
        },
        ValueKind::Other => Ok(()),
        _ => Err(RuntimeError::Deserialize(String::from_str(
            "Cannot deserialize value: unsupported JavaScript value",
        ))),
    }
}

/// The slot through which evaluated code hands over rendered HTML; the
/// last write wins.
pub struct SsrCapture {
    html: Option<String>,
}

impl View for SsrCapture {
    type V = Option<Seq<char>>;

    closed spec fn view(&self) -> Option<Seq<char>> {
        match self.html {
            Some(h) => Some(h@),
            None => None,
        }
    }
}

impl SsrCapture {
    pub fn new() -> (r: SsrCapture)
        ensures
            r@ is None,
    {
        SsrCapture { html: None }
    }

    /// Empties the slot, as each evaluation does first.
    pub fn reset(&mut self)
        ensures
            final(self)@ is None,
    {
        self.html = None;
    }

    /// Holds `html`, in place of anything written before.
    pub fn set(&mut self, html: String)
        ensures
            final(self)@ == Some(html@),
    {
        self.html = Some(html);
    }

    /// What the slot holds, leaving it empty.
    pub fn take(&mut self) -> (r: Option<String>)
        ensures
            final(self)@ is None,
            match old(self)@ {
                Some(h) => r matches Some(x) && x@ == h,
                None => r is None,
            },
    {
        match &self.html {
            Some(h) => {
                let out = h.clone();
                self.html = None;
                Some(out)
            },
            None => None,
        }
    }
}

/// The result of an evaluation once the code has run: the captured HTML
/// where the code captured any, which is then taken out of the slot; else
/// `None`, and the code's own value is read.
pub fn captured_result(capture: &mut SsrCapture) -> (r: Option<JsonValue>)
    ensures
        final(capture)@ is None,
        match old(capture)@ {
            Some(h) => r matches Some(JsonValue::Str(x)) && x@ == h,
            None => r is None,
        },
{
    match capture.take() {
        Some(h) => Some(JsonValue::Str(h)),
        None => None,
    }
}

} // verus!
