//! The host/guest wire protocol.
//!
//! The host hands the guest one request per line on its stdin, the JSON
//! object `{"script":<string>}`. The guest answers each request with one JSON
//! document in its result file: `{"Ok":null}` when the script produced no
//! value, `{"Ok":<value>}` when it produced one, and `{"Err":<string>}` when
//! it failed. Documents are written compactly, as `serde_json` prints them;
//! the framing is read and written here and the embedded value and string
//! are printed and parsed by `serde_json`.

use serde_json::{Error as JsonError, Value as JsonValue};
use vstd::prelude::*;
use vstd::string::StrSliceExecFns;

verus! {

#[verifier::external_type_specification]
#[verifier::external_body]
pub struct ExJsonValue(JsonValue);

#[verifier::external_type_specification]
#[verifier::external_body]
pub struct ExJsonError(JsonError);

/// The compact JSON text that `serde_json` prints for a string.
pub uninterp spec fn json_quoted(s: Seq<char>) -> Seq<char>;

/// The compact JSON text that `serde_json` prints for a value.
pub uninterp spec fn json_text(v: JsonValue) -> Seq<char>;

/// The string that `serde_json` reads from a text, or `None` when it
/// refuses the text.
pub uninterp spec fn json_string_of(s: Seq<char>) -> Option<Seq<char>>;

/// The value that `serde_json` reads from a text, or `None` when it refuses
/// the text (which includes nesting deeper than its recursion limit).
pub uninterp spec fn json_value_of(s: Seq<char>) -> Option<JsonValue>;

/// Relies on `serde_json::to_string` on a `str`: it writes into a `Vec`,
/// which cannot fail, and gives the string's JSON text.
#[verifier::external_body]
fn quote_json(s: &str) -> (r: Result<String, JsonError>)
    ensures
        r is Ok,
        r matches Ok(t) ==> t@ == json_quoted(s@),
{
    serde_json::to_string(s)
}

/// Parsing the JSON text of a string gives back that string.
pub open spec fn reads_back_string(s: Seq<char>, r: Result<String, JsonError>) -> bool {
    forall|t: Seq<char>| s == #[trigger] json_quoted(t) ==> (r matches Ok(x) && x@ == t)
}

/// Parsing the JSON text of a value, when it succeeds, gives back that
/// value.
pub open spec fn reads_back_value(s: Seq<char>, r: Result<JsonValue, JsonError>) -> bool {
    forall|v: JsonValue| s == #[trigger] json_text(v) ==> (r matches Ok(x) ==> x == v)
}

/// Relies on `serde_json::from_str` into a `String`: the result depends on
/// the text alone, and the text that `serde_json` prints for a string parses
/// back to that string.
#[verifier::external_body]
fn unquote_json(s: &str) -> (r: Result<String, JsonError>)
    ensures
        r matches Ok(x) ==> json_string_of(s@) == Some(x@),
        r is Err ==> json_string_of(s@) is None,
        reads_back_string(s@, r),
{
    serde_json::from_str::<String>(s)
}

/// Relies on `serde_json::to_string` on a `Value`: serializing a `Value`
/// into a `Vec` cannot fail, and gives the value's JSON text.
#[verifier::external_body]
fn print_json(v: &JsonValue) -> (r: Result<String, JsonError>)
    ensures
        r is Ok,
        r matches Ok(t) ==> t@ == json_text(*v),
{
    serde_json::to_string(v)
}

/// Relies on `serde_json::from_str` into a `Value` (with exact float
/// parsing): the result depends on the text alone, and when the text that
/// `serde_json` prints for a value parses, it gives back that value.
#[verifier::external_body]
fn parse_json(s: &str) -> (r: Result<JsonValue, JsonError>)
    ensures
        r matches Ok(x) ==> json_value_of(s@) == Some(x),
        r is Err ==> json_value_of(s@) is None,
        reads_back_value(s@, r),
{
    serde_json::from_str::<JsonValue>(s)
}

/// `{"<key>":<body>}`.
pub open spec fn frame(key: Seq<char>, body: Seq<char>) -> Seq<char> {
    seq!['{', '"'] + key + seq!['"', ':'] + body + seq!['}']
}

pub open spec fn ok_key() -> Seq<char> {
    seq!['O', 'k']
}

pub open spec fn err_key() -> Seq<char> {
    seq!['E', 'r', 'r']
}

pub open spec fn script_key() -> Seq<char> {
    seq!['s', 'c', 'r', 'i', 'p', 't']
}

pub open spec fn null_text() -> Seq<char> {
    seq!['n', 'u', 'l', 'l']
}

/// Whether `s` is `{"<key>":<body>}` for some body.
pub open spec fn is_framed(s: Seq<char>, key: Seq<char>) -> bool {
    exists|b: Seq<char>| s == #[trigger] frame(key, b)
}

/// The body of `s` when it is `{"<key>":<body>}`.
pub open spec fn body_of(s: Seq<char>, key: Seq<char>) -> Seq<char> {
    choose|b: Seq<char>| s == #[trigger] frame(key, b)
}

/// What a result document reads as; `None` when it is not one (not framed,
/// or its body is refused by `serde_json`).
pub open spec fn decoded(s: Seq<char>) -> Option<Result<Option<JsonValue>, Seq<char>>> {
    if is_framed(s, ok_key()) {
        let b = body_of(s, ok_key());
        if b == null_text() {
            Some(Ok(None))
        } else {
            match json_value_of(b) {
                Some(v) => Some(Ok(Some(v))),
                None => None,
            }
        }
    } else if is_framed(s, err_key()) {
        match json_string_of(body_of(s, err_key())) {
            Some(m) => Some(Err(m)),
            None => None,
        }
    } else {
        None
    }
}

/// Why a document could not be read.
pub enum DecodeError {
    /// The text is not one of the protocol's documents.
    Malformed,
    /// The embedded value or string is not valid JSON of its kind.
    Json(JsonError),
}

/// One request to the guest: a script to evaluate.
pub struct Input {
    pub script: String,
}

/// The guest's answer to one request: a value, no value, or an error
/// message.
pub enum EvaluationResult {
    Value(Option<JsonValue>),
    Error(String),
}

impl View for EvaluationResult {
    type V = Result<Option<JsonValue>, Seq<char>>;

    open spec fn view(&self) -> Result<Option<JsonValue>, Seq<char>> {
        match self {
            EvaluationResult::Value(v) => Ok(*v),
            EvaluationResult::Error(m) => Err(m@),
        }
    }
}

/// The document for an evaluation result.
pub open spec fn encoding(r: Result<Option<JsonValue>, Seq<char>>) -> Seq<char> {
    match r {
        Ok(None) => frame(ok_key(), null_text()),
        Ok(Some(v)) => frame(ok_key(), json_text(v)),
        Err(m) => frame(err_key(), json_quoted(m)),
    }
}

/// Results that their document tells apart: a present value whose text is
/// `null` is written exactly as an absent one.
pub open spec fn distinguishable(r: Result<Option<JsonValue>, Seq<char>>) -> bool {
    r matches Ok(Some(v)) ==> json_text(v) != null_text()
}

/// The request line for a script: its `Input` document and a newline.
pub open spec fn request_line(script: Seq<char>) -> Seq<char> {
    frame(script_key(), json_quoted(script)).push('\n')
}

proof fn lemma_frame_split(key: Seq<char>, body: Seq<char>)
    ensures
        frame(key, body) == (seq!['{', '"'] + key + seq!['"', ':']) + body + seq!['}'],
        frame(key, body).len() == key.len() + body.len() + 5,
{
    assert(frame(key, body) =~= (seq!['{', '"'] + key + seq!['"', ':']) + body + seq!['}']);
}

/// When `s` is `prefix`, a body and a closing brace, the body.
fn strip_frame<'a>(s: &'a str, prefix: &str) -> (r: Option<&'a str>)
    ensures
        match r {
            Some(b) => s@ == prefix@ + b@ + seq!['}'],
            None => forall|b: Seq<char>| s@ != #[trigger] (prefix@ + b + seq!['}']),
        },
{
    let n = s.unicode_len();
    let p = prefix.unicode_len();
    if n == 0 || n - 1 < p {
        proof {
            assert forall|b: Seq<char>| s@ != #[trigger] (prefix@ + b + seq!['}']) by {
                if s@ == prefix@ + b + seq!['}'] {
                    assert(s@.len() == p + b.len() + 1);
                }
            }
        }
        return None;
    }
    if s.get_char(n - 1) != '}' {
        proof {
            assert forall|b: Seq<char>| s@ != #[trigger] (prefix@ + b + seq!['}']) by {
                if s@ == prefix@ + b + seq!['}'] {
                    assert(s@[n - 1] == (prefix@ + b + seq!['}'])[n - 1]);
                }
            }
        }
        return None;
    }
    let mut i: usize = 0;
    while i < p
        invariant
            i <= p,
            p == prefix@.len(),
            n == s@.len(),
            p < n,
            forall|j: int| 0 <= j < i ==> s@[j] == prefix@[j],
        decreases p - i,
    {
        if s.get_char(i) != prefix.get_char(i) {
            proof {
                assert forall|b: Seq<char>| s@ != #[trigger] (prefix@ + b + seq!['}']) by {
                    if s@ == prefix@ + b + seq!['}'] {
                        assert(s@[i as int] == (prefix@ + b + seq!['}'])[i as int]);
                    }
                }
            }
            return None;
        }
        i = i + 1;
    }
    let b = s.substring_char(p, n - 1);
    assert(s@ =~= prefix@ + b@ + seq!['}']);
    Some(b)
}

/// `prefix`, then `body`, then a closing brace.
fn build_frame(prefix: &str, body: &str) -> (r: String)
    ensures
        r@ == prefix@ + body@ + seq!['}'],
{
    let mut out = prefix.to_owned();
    out.append(body);
    out.append("}");
    proof {
        reveal_strlit("}");
    }
    assert(out@ =~= prefix@ + body@ + seq!['}']);
    out
}

impl Input {
    /// The `Input` document for this request.
    pub fn to_string(&self) -> (r: Result<String, JsonError>)
        ensures
            r matches Ok(t) && t@ == frame(script_key(), json_quoted(self.script@)),
    {
        let quoted = quote_json(self.script.as_str())?;
        let prefix = "{\"script\":";
        proof {
            reveal_strlit("{\"script\":");
            lemma_frame_split(script_key(), quoted@);
            assert(prefix@ =~= seq!['{', '"'] + script_key() + seq!['"', ':']);
        }
        Ok(build_frame(prefix, quoted.as_str()))
    }

    /// Reads an `Input` document. A text that is not `{"script":...}` is
    /// malformed, a body that is not a JSON string is a JSON error, and the
    /// document of any script reads back as that script.
    pub fn from_str(s: &str) -> (r: Result<Input, DecodeError>)
        ensures
            !is_framed(s@, script_key()) ==> r matches Err(DecodeError::Malformed),
            is_framed(s@, script_key()) ==> match json_string_of(body_of(s@, script_key())) {
                Some(t) => r matches Ok(x) && x.script@ == t,
                None => r matches Err(DecodeError::Json(_)),
            },
            forall|t: Seq<char>|
                s@ == #[trigger] frame(script_key(), json_quoted(t)) ==> (r matches Ok(x)
                    && x.script@ == t),
    {
        let prefix = "{\"script\":";
        proof {
            reveal_strlit("{\"script\":");
            assert(prefix@ =~= seq!['{', '"'] + script_key() + seq!['"', ':']);
        }
        match strip_frame(s, prefix) {
            None => {
                proof {
                    assert forall|b: Seq<char>| s@ != #[trigger] frame(script_key(), b) by {
                        lemma_frame_split(script_key(), b);
                        assert(s@ != prefix@ + b + seq!['}']);
                    }
                }
                Err(DecodeError::Malformed)
            },
            Some(body) => {
                proof {
                    assert forall|t: Seq<char>|
                        s@ == #[trigger] frame(script_key(), json_quoted(t)) implies body@
                        == json_quoted(t) by {
                        lemma_frame_split(script_key(), json_quoted(t));
                        assert(body@ =~= s@.subrange(prefix@.len() as int, s@.len() - 1));
                        assert(json_quoted(t) =~= s@.subrange(prefix@.len() as int, s@.len() - 1));
                    }
                    assert forall|b: Seq<char>|
                        s@ == #[trigger] frame(script_key(), b) implies body@ == b by {
                        lemma_frame_split(script_key(), b);
                        assert(body@ =~= s@.subrange(prefix@.len() as int, s@.len() - 1));
                        assert(b =~= s@.subrange(prefix@.len() as int, s@.len() - 1));
                    }
                    lemma_frame_split(script_key(), body@);
                    assert(s@ == frame(script_key(), body@));
                    assert(body@ == body_of(s@, script_key()));
                }
                match unquote_json(body) {
                    Ok(script) => Ok(Input { script }),
                    Err(e) => Err(DecodeError::Json(e)),
                }
            },
        }
    }
}

/// The line to push onto the guest's stdin for `script`.
pub fn request_line_for(script: &str) -> (r: Result<String, JsonError>)
    ensures
        r matches Ok(t) && t@ == request_line(script@),
{
    let input = Input { script: script.to_owned() };
    let mut line = input.to_string()?;
    line.append("\n");
    proof {
        reveal_strlit("\n");
    }
    assert(line@ =~= request_line(script@));
    Ok(line)
}

impl EvaluationResult {
    /// The document for this result; writing one never fails.
    pub fn to_string(&self) -> (r: Result<String, JsonError>)
        ensures
            r matches Ok(t) && t@ == encoding(self@),
    {
        let ok_prefix = "{\"Ok\":";
        let err_prefix = "{\"Err\":";
        proof {
            reveal_strlit("{\"Ok\":");
            reveal_strlit("{\"Err\":");
            assert(ok_prefix@ =~= seq!['{', '"'] + ok_key() + seq!['"', ':']);
            assert(err_prefix@ =~= seq!['{', '"'] + err_key() + seq!['"', ':']);
        }
        match self {
            EvaluationResult::Value(None) => {
                proof {
                    reveal_strlit("null");
                    lemma_frame_split(ok_key(), null_text());
                    assert("null"@ =~= null_text());
                }
                Ok(build_frame(ok_prefix, "null"))
            },
            EvaluationResult::Value(Some(v)) => {
                let text = match print_json(v) {
                    Ok(t) => t,
                    Err(e) => {
                        return Err(e);
                    },
                };
                proof {
                    lemma_frame_split(ok_key(), text@);
                }
                Ok(build_frame(ok_prefix, text.as_str()))
            },
            EvaluationResult::Error(m) => {
                let quoted = quote_json(m.as_str())?;
                proof {
                    lemma_frame_split(err_key(), quoted@);
                }
                Ok(build_frame(err_prefix, quoted.as_str()))
            },
        }
    }

    /// Reads a result document. A text that is neither `{"Ok":...}` nor
    /// `{"Err":...}` is malformed, `{"Ok":null}` is an absent value, and a
    /// body that `serde_json` refuses is a JSON error. The document of an
    /// error or of an absent value always reads back as that result; the
    /// document of a present value reads back as that value unless
    /// `serde_json` refuses its text (nesting deeper than its limit).
    pub fn from_str(s: &str) -> (r: Result<EvaluationResult, DecodeError>)
        ensures
            !is_framed(s@, ok_key()) && !is_framed(s@, err_key()) ==> r matches Err(
                DecodeError::Malformed,
            ),
            match decoded(s@) {
                Some(x) => r matches Ok(y) && y@ == x,
                None => r is Err,
            },
            forall|x: Result<Option<JsonValue>, Seq<char>>|
                distinguishable(x) && s@ == #[trigger] encoding(x) ==> {
                    &&& (r matches Ok(y) ==> y@ == x)
                    &&& (x matches Ok(Some(_)) || r is Ok)
                },
    {
        let ok_prefix = "{\"Ok\":";
        let err_prefix = "{\"Err\":";
        proof {
            reveal_strlit("{\"Ok\":");
            reveal_strlit("{\"Err\":");
            assert(ok_prefix@ =~= seq!['{', '"'] + ok_key() + seq!['"', ':']);
            assert(err_prefix@ =~= seq!['{', '"'] + err_key() + seq!['"', ':']);
            assert forall|b1: Seq<char>, b2: Seq<char>|
                #[trigger] frame(ok_key(), b1) != #[trigger] frame(err_key(), b2) by {
                assert(frame(ok_key(), b1)[2] == 'O');
                assert(frame(err_key(), b2)[2] == 'E');
            }
        }
        match strip_frame(s, ok_prefix) {
            Some(body) => {
                proof {
                    assert forall|b: Seq<char>| s@ == #[trigger] frame(ok_key(), b) implies body@
                        == b by {
                        lemma_frame_split(ok_key(), b);
                        assert(body@ =~= s@.subrange(ok_prefix@.len() as int, s@.len() - 1));
                        assert(b =~= s@.subrange(ok_prefix@.len() as int, s@.len() - 1));
                    }
                    lemma_frame_split(ok_key(), body@);
                    assert(s@ == frame(ok_key(), body@));
                    assert(body@ == body_of(s@, ok_key()));
                }
                let text = body.to_owned();
                let null = "null".to_owned();
                proof {
                    reveal_strlit("null");
                    assert("null"@ =~= null_text());
                }
                if text.eq(&null) {
                    Ok(EvaluationResult::Value(None))
                } else {
                    match parse_json(body) {
                        Ok(v) => Ok(EvaluationResult::Value(Some(v))),
                        Err(e) => Err(DecodeError::Json(e)),
                    }
                }
            },
            None => {
                proof {
                    assert forall|b: Seq<char>| s@ != #[trigger] frame(ok_key(), b) by {
                        lemma_frame_split(ok_key(), b);
                        assert(s@ != ok_prefix@ + b + seq!['}']);
                    }
                }
                match strip_frame(s, err_prefix) {
                    Some(body) => {
                        proof {
                            assert forall|b: Seq<char>|
                                s@ == #[trigger] frame(err_key(), b) implies body@ == b by {
                                lemma_frame_split(err_key(), b);
                                assert(body@ =~= s@.subrange(
                                    err_prefix@.len() as int,
                                    s@.len() - 1,
                                ));
                                assert(b =~= s@.subrange(err_prefix@.len() as int, s@.len() - 1));
                            }
                            lemma_frame_split(err_key(), body@);
                            assert(s@ == frame(err_key(), body@));
                            assert(body@ == body_of(s@, err_key()));
                        }
                        match unquote_json(body) {
                            Ok(m) => Ok(EvaluationResult::Error(m)),
                            Err(e) => Err(DecodeError::Json(e)),
                        }
                    },
                    None => {
                        proof {
                            assert forall|b: Seq<char>| s@ != #[trigger] frame(err_key(), b) by {
                                lemma_frame_split(err_key(), b);
                                assert(s@ != err_prefix@ + b + seq!['}']);
                            }
                        }
                        Err(DecodeError::Malformed)
                    },
                }
            },
        }
    }
}

} // verus!
