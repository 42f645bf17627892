//! Command-line options of a node and the parsing of its log level.

use vstd::prelude::*;
use vstd::string::*;

verus! {

/// How much the node reports while it runs.
#[derive(Debug, Clone, Copy, PartialEq, Eq, Structural)]
pub enum Logging {
    Trace,
    Info,
    Warn,
    Error,
}

/// The message of a level name that is none of the four.
pub const LOGGING_EXPECTED: &'static str = "{trace, info, warn, error} expected";

/// The ASCII lower-case form of a character: `A`..`Z` become `a`..`z`, every
/// other character stays as it is.
pub open spec fn ascii_lower(c: char) -> char {
    if 'A' <= c && c <= 'Z' {
        ((c as u32) + 32) as char
    } else {
        c
    }
}

/// The ASCII lower-case form of a text.
pub open spec fn ascii_lower_seq(s: Seq<char>) -> Seq<char> {
    s.map_values(|c: char| ascii_lower(c))
}

pub open spec fn trace_name() -> Seq<char> { seq!['t', 'r', 'a', 'c', 'e'] }
pub open spec fn info_name() -> Seq<char> { seq!['i', 'n', 'f', 'o'] }
pub open spec fn warn_name() -> Seq<char> { seq!['w', 'a', 'r', 'n'] }
pub open spec fn error_name() -> Seq<char> { seq!['e', 'r', 'r', 'o', 'r'] }

/// The level that a text names, ignoring the case of ASCII letters.
pub open spec fn spec_parse_logging(s: Seq<char>) -> Option<Logging> {
    let l = ascii_lower_seq(s);
    if l == trace_name() {
        Some(Logging::Trace)
    } else if l == info_name() {
        Some(Logging::Info)
    } else if l == warn_name() {
        Some(Logging::Warn)
    } else if l == error_name() {
        Some(Logging::Error)
    } else {
        None
    }
}

fn lower_char(c: char) -> (r: char)
    ensures
        r == ascii_lower(c),
{
    if 'A' <= c && c <= 'Z' {
        let code: u8 = (c as u8) + 32;
        code as char
    } else {
        c
    }
}

/// Whether `s`, with its ASCII letters lowered, is `name` (given in lower case).
fn equals_ignoring_ascii_case(s: &str, name: &str) -> (r: bool)
    ensures
        r == (ascii_lower_seq(s@) == name@),
{
    let n = s.unicode_len();
    let m = name.unicode_len();
    if n != m {
        proof {
            assert(ascii_lower_seq(s@).len() == s@.len());
        }
        return false;
    }
    let mut i: usize = 0;
    while i < n
        invariant
            n == s@.len(),
            m == name@.len(),
            n == m,
            i <= n,
            forall|j: int| 0 <= j < i ==> ascii_lower(#[trigger] s@[j]) == name@[j],
        decreases n - i,
    {
        let c = s.get_char(i);
        let d = name.get_char(i);
        if lower_char(c) != d {
            proof {
                assert(ascii_lower_seq(s@)[i as int] != name@[i as int]);
            }
            return false;
        }
        i = i + 1;
    }
    proof {
        assert(ascii_lower_seq(s@) =~= name@);
    }
    true
}

impl Logging {
    /// Reads a log level: `trace`, `info`, `warn` or `error`, in any mix of
    /// upper- and lower-case ASCII letters.
    pub fn parse(s: &str) -> (r: Result<Logging, &'static str>)
        ensures
            match spec_parse_logging(s@) {
                Some(level) => r == Ok::<Logging, &'static str>(level),
                None => r is Err && r->Err_0@ == LOGGING_EXPECTED@,
            },
    {
        proof {
            reveal_strlit("trace");
            reveal_strlit("info");
            reveal_strlit("warn");
            reveal_strlit("error");
        }
        assert("trace"@ =~= trace_name());
        assert("info"@ =~= info_name());
        assert("warn"@ =~= warn_name());
        assert("error"@ =~= error_name());
        if equals_ignoring_ascii_case(s, "trace") {
            Ok(Logging::Trace)
        } else if equals_ignoring_ascii_case(s, "info") {
            Ok(Logging::Info)
        } else if equals_ignoring_ascii_case(s, "warn") {
            Ok(Logging::Warn)
        } else if equals_ignoring_ascii_case(s, "error") {
            Ok(Logging::Error)
        } else {
            Err(LOGGING_EXPECTED)
        }
    }
}

impl std::str::FromStr for Logging {
    type Err = &'static str;

    fn from_str(s: &str) -> (r: Result<Logging, &'static str>)
        ensures
            match spec_parse_logging(s@) {
                Some(level) => r == Ok::<Logging, &'static str>(level),
                None => r is Err && r->Err_0@ == LOGGING_EXPECTED@,
            },
    {
        Logging::parse(s)
    }
}

/// The options a node starts with: its id, the address it serves on, the
/// addresses of the other nodes, and its log level.
pub struct Opts {
    pub id: u128,
    pub host: String,
    pub nodes: Vec<String>,
    pub logging: Logging,
}

} // verus!
