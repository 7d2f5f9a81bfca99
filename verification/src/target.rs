//! The resource a request asks for, and the line that asks for it.

use crate::error::GeminiError;
use url::ParseError;
use url::Url;
use vstd::prelude::*;
use vstd::utf8::encode_utf8;

verus! {

/// Port of a Gemini server where the resource identifier names none.
pub const DEFAULT_PORT: u16 = 1965;

/// Why the `url` crate refused a string. Nothing is read from it here.
#[verifier::external_type_specification]
#[verifier::external_body]
pub struct ExParseError(ParseError);

/// The parts of a parsed resource identifier that a request is made from.
#[derive(Debug)]
pub struct UrlParts {
    /// The scheme, without the colon.
    pub scheme: String,
    /// The host, where the identifier has one.
    pub host: Option<String>,
    /// The port, where the identifier names one.
    pub port: Option<u16>,
    /// The whole identifier in its canonical form.
    pub text: String,
}

/// [`UrlParts`] as mathematical values.
pub struct UrlPartsView {
    pub scheme: Seq<char>,
    pub host: Option<Seq<char>>,
    pub port: Option<u16>,
    pub text: Seq<char>,
}

impl View for UrlParts {
    type V = UrlPartsView;

    open spec fn view(&self) -> UrlPartsView {
        UrlPartsView {
            scheme: self.scheme@,
            host: match self.host {
                Some(h) => Some(h@),
                None => None,
            },
            port: self.port,
            text: self.text@,
        }
    }
}

/// What the `url` crate makes of `input`: the parts of the absolute
/// identifier it parses to, or nothing where it refuses the string.
pub uninterp spec fn url_parts(input: Seq<char>) -> Option<UrlPartsView>;

/// Parses `input` with `url::Url::parse` and reads the scheme, host, port and
/// serialization off the result.
///
/// Trusted: the outcome is the one that [`url_parts`] names for this string,
/// parts for a string that parses and none for one that is refused.
#[verifier::external_body]
fn parse_url(input: &str) -> (parsed: Result<UrlParts, ParseError>)
    ensures
        match parsed {
            Ok(parts) => url_parts(input@) == Some(parts@),
            Err(_) => url_parts(input@) is None,
        },
{
    let url = Url::parse(input)?;
    Ok(
        UrlParts {
            scheme: url.scheme().to_owned(),
            host: url.host_str().map(str::to_owned),
            port: url.port(),
            text: String::from(url),
        },
    )
}

/// A resource to ask a Gemini server for.
#[derive(Debug)]
pub struct Target {
    host: String,
    port: u16,
    text: String,
}

/// A [`Target`] as mathematical values.
pub struct TargetView {
    /// The server to connect to. Never empty.
    pub host: Seq<char>,
    /// The port to connect to.
    pub port: u16,
    /// The canonical form of the identifier, which is what is asked for.
    pub text: Seq<char>,
}

impl View for Target {
    type V = TargetView;

    closed spec fn view(&self) -> TargetView {
        TargetView { host: self.host@, port: self.port, text: self.text@ }
    }
}

/// The scheme of the protocol.
pub open spec fn gemini_scheme() -> Seq<char> {
    "gemini"@
}

/// The target that parsed parts stand for. There is none where the string
/// did not parse, where the scheme is not the protocol's, or where there is
/// no host or an empty one. A missing port is the default port.
pub open spec fn target_of(parts: Option<UrlPartsView>) -> Option<TargetView> {
    match parts {
        Some(p) => match p.host {
            Some(host) if p.scheme == gemini_scheme() && host.len() > 0 => Some(
                TargetView {
                    host,
                    port: match p.port {
                        Some(port) => port,
                        None => DEFAULT_PORT,
                    },
                    text: p.text,
                },
            ),
            _ => None,
        },
        None => None,
    }
}

/// The bytes of the request for the identifier `text`: the identifier and a
/// carriage return and line feed after it, in UTF-8.
pub open spec fn request_bytes(text: Seq<char>) -> Seq<u8> {
    encode_utf8(text + seq!['\r', '\n'])
}

impl Target {
    /// Makes a target of what parsing a resource identifier gave.
    pub fn from_parts(parsed: Result<UrlParts, ParseError>) -> (r: Result<Target, GeminiError>)
        ensures
            match target_of(
                match parsed {
                    Ok(parts) => Some(parts@),
                    Err(_) => None,
                },
            ) {
                Some(target) => r matches Ok(t) && t@ == target,
                None => r == Err::<Target, GeminiError>(GeminiError::UrlError),
            },
    {
        let parts = match parsed {
            Ok(parts) => parts,
            Err(_) => {
                return Err(GeminiError::UrlError);
            },
        };
        let gemini = "gemini".to_owned();
        if parts.scheme != gemini {
            return Err(GeminiError::UrlError);
        }
        let host = match parts.host {
            Some(host) => host,
            None => {
                return Err(GeminiError::UrlError);
            },
        };
        if host.as_str().unicode_len() == 0 {
            return Err(GeminiError::UrlError);
        }
        let port = match parts.port {
            Some(port) => port,
            None => DEFAULT_PORT,
        };
        Ok(Target { host, port, text: parts.text })
    }

    /// Reads a target from a resource identifier.
    ///
    /// The `url` crate parses the string; what it makes of it decides, as
    /// [`target_of`] says. Every string that is no target is a `UrlError`.
    pub fn parse(input: &str) -> (r: Result<Target, GeminiError>)
        ensures
            match target_of(url_parts(input@)) {
                Some(target) => r matches Ok(t) && t@ == target,
                None => r == Err::<Target, GeminiError>(GeminiError::UrlError),
            },
    {
        Target::from_parts(parse_url(input))
    }

    /// The host to connect to.
    pub fn host(&self) -> (host: &str)
        ensures
            host@ == self@.host,
            host@.len() > 0,
    {
        proof {
            use_type_invariant(self);
        }
        self.host.as_str()
    }

    /// The port to connect to.
    pub fn port(&self) -> (port: u16)
        ensures
            port == self@.port,
    {
        self.port
    }

    /// The identifier in its canonical form.
    pub fn as_str(&self) -> (text: &str)
        ensures
            text@ == self@.text,
    {
        self.text.as_str()
    }

    /// The request: the identifier and the line end, as bytes.
    pub fn request(&self) -> (bytes: Vec<u8>)
        ensures
            bytes@ == request_bytes(self@.text),
    {
        let mut line = self.text.clone();
        line.append("\r\n");
        proof {
            reveal_strlit("\r\n");
            assert("\r\n"@ =~= seq!['\r', '\n']);
        }
        line.as_str().as_bytes_vec()
    }

    #[verifier::type_invariant]
    spec fn has_host(&self) -> bool {
        self.host@.len() > 0
    }
}

/// A string that the parser refuses, or that parses to an identifier without
/// a host, with an empty host or of another scheme, is no target. Whatever is
/// a target has the host, and the canonical form, that the parser read.
pub proof fn lemma_target_has_host(parts: Option<UrlPartsView>)
    ensures
        match parts {
            None => target_of(parts) is None,
            Some(p) => match p.host {
                None => target_of(parts) is None,
                Some(host) => if host.len() == 0 || p.scheme != gemini_scheme() {
                    target_of(parts) is None
                } else {
                    target_of(parts) matches Some(target) && target.host == host && target.text
                        == p.text
                },
            },
        },
{
}

/// Encoding goes character by character: the encoding of two texts in a row
/// is the one after the other.
pub proof fn lemma_encode_concat(a: Seq<char>, b: Seq<char>)
    ensures
        encode_utf8(a + b) == encode_utf8(a) + encode_utf8(b),
    decreases a.len(),
{
    if a.len() == 0 {
        assert(a + b =~= b);
        assert(encode_utf8(a) + encode_utf8(b) =~= encode_utf8(b));
    } else {
        assert((a + b).drop_first() =~= a.drop_first() + b);
        lemma_encode_concat(a.drop_first(), b);
        assert(encode_utf8(a + b) =~= encode_utf8(a) + encode_utf8(b));
    }
}

/// A request is the identifier's bytes and then the two bytes of the line
/// end, and nothing after them.
pub proof fn lemma_request_framing(text: Seq<char>)
    ensures
        request_bytes(text) == encode_utf8(text) + seq![13u8, 10u8],
        request_bytes(text).len() == encode_utf8(text).len() + 2,
{
    let end = seq!['\r', '\n'];
    lemma_encode_concat(text, end);
    assert(vstd::utf8::is_ascii_chars(end));
    vstd::utf8::is_ascii_chars_encode_utf8(end);
    assert(encode_utf8(end) =~= seq![13u8, 10u8]);
}

} // verus!
