//! The command line of the test client that pairs with a host, asks its
//! status and requests a shutdown. Its network flows live in the
//! executable; the rules on its arguments live here.

use vstd::prelude::*;
use vstd::string::{StrSliceExecFns, StringExecFns};

use crate::decimal::std_parse_u16;
use crate::http::{is_unicode_whitespace, is_whitespace, parse_u16};
use crate::pairing::is_pairing_code;
use crate::server::text_equal;
use crate::startup::texts;

verus! {

/// The parsed command line of the test client.
pub struct Options {
    pub command: String,
    pub host: String,
    pub port: u16,
    pub code: Option<String>,
    pub credential_file: String,
}

pub open spec fn usage_text() -> Seq<char> {
    "usage: decky-power-test <pair|status|shutdown> --host HOST [--port PORT] [--code 483921] [--credential-file PATH]"@
}

/// The one-line usage of the test client.
pub fn usage() -> (text: String)
    ensures
        text@ == usage_text(),
{
    String::from_str(
        "usage: decky-power-test <pair|status|shutdown> --host HOST [--port PORT] [--code 483921] [--credential-file PATH]",
    )
}

/// Number of complete name/value pairs after the command.
pub open spec fn pair_count(args: Seq<Seq<char>>) -> int {
    (args.len() - 1) / 2
}

pub open spec fn pair_name(args: Seq<Seq<char>>, k: int) -> Seq<char> {
    args[1 + 2 * k]
}

pub open spec fn pair_value(args: Seq<Seq<char>>, k: int) -> Seq<char> {
    args[2 + 2 * k]
}

/// The value given last for `name` among the first `k` pairs: a name given
/// twice keeps its last value.
pub open spec fn last_value(args: Seq<Seq<char>>, name: Seq<char>, k: int) -> Option<Seq<char>>
    decreases k,
{
    if k <= 0 {
        None
    } else if pair_name(args, k - 1) == name {
        Some(pair_value(args, k - 1))
    } else {
        last_value(args, name, k - 1)
    }
}

pub open spec fn is_known_option(name: Seq<char>) -> bool {
    name == "--host"@ || name == "--port"@ || name == "--credential-file"@ || name == "--code"@
}

/// Whether `name` is given, among the first `k` pairs, as an option the
/// client does not know.
pub open spec fn unknown_before(args: Seq<Seq<char>>, k: int, name: Seq<char>) -> bool {
    exists|j: int| 0 <= j < k && #[trigger] pair_name(args, j) == name && !is_known_option(name)
}

/// The option names given that the client does not know.
pub open spec fn unknown_names(args: Seq<Seq<char>>) -> Set<Seq<char>> {
    Set::new(|name: Seq<char>| unknown_before(args, pair_count(args), name))
}

/// Whether `name` is one of `names`.
pub open spec fn listed(names: Seq<Seq<char>>, name: Seq<char>) -> bool {
    exists|i: int| 0 <= i < names.len() && names[i] == name
}

/// The port text given with `--port`, or the default.
pub open spec fn port_text(args: Seq<Seq<char>>) -> Seq<char> {
    match last_value(args, "--port"@, pair_count(args)) {
        Some(t) => t,
        None => "47991"@,
    }
}

/// `{:?}` of a list of texts, as the standard library writes it.
pub uninterp spec fn spec_debug_list(items: Seq<Seq<char>>) -> Seq<char>;

/// The `Debug` text of a list of strings (`std::fmt`), as
/// `format!("{:?}", items)` writes it: brackets, quoted and escaped items,
/// comma-separated. The contract names the result.
#[verifier::external_body]
fn debug_list(items: &Vec<String>) -> (text: String)
    ensures
        text@ == spec_debug_list(Seq::new(items@.len(), |i: int| items@[i]@)),
{
    format!("{:?}", items)
}

fn join3(a: &str, b: &str, c: &str) -> (text: String)
    ensures
        text@ == a@ + b@ + c@,
{
    let mut text = String::from_str(a);
    text.append(b);
    text.append(c);
    text
}

fn last_value_of(arguments: &[String], name: &str) -> (value: Option<String>)
    requires
        arguments@.len() >= 1,
        (arguments@.len() - 1) % 2 == 0,
    ensures
        match value {
            Some(v) => last_value(texts(arguments@), name@, pair_count(texts(arguments@))) == Some(v@),
            None => last_value(texts(arguments@), name@, pair_count(texts(arguments@))) is None,
        },
{
    let ghost args = texts(arguments@);
    let pairs = (arguments.len() - 1) / 2;
    let mut found: Option<String> = None;
    let mut k: usize = 0;
    while k < pairs
        invariant
            args == texts(arguments@),
            arguments@.len() >= 1,
            pairs == (arguments@.len() - 1) / 2,
            pairs == pair_count(args),
            k <= pairs,
            match found {
                Some(v) => last_value(args, name@, k as int) == Some(v@),
                None => last_value(args, name@, k as int) is None,
            },
        decreases pairs - k,
    {
        assert(2 * k + 2 <= arguments@.len()) by (nonlinear_arith)
            requires
                k < pairs,
                pairs == (arguments@.len() - 1) / 2,
        ;
        assert(arguments@.len() == arguments.len());
        let index: usize = k + k + 1;
        if text_equal(arguments[index].as_str(), name) {
            found = Some(arguments[index + 1].clone());
        }
        k = k + 1;
    }
    found
}

fn is_known(name: &str) -> (known: bool)
    ensures
        known == is_known_option(name@),
{
    text_equal(name, "--host") || text_equal(name, "--port") || text_equal(name, "--credential-file")
        || text_equal(name, "--code")
}

/// The unknown option names, each once, in the order first given.
fn unknown_options(arguments: &[String]) -> (names: Vec<String>)
    requires
        arguments@.len() >= 1,
        (arguments@.len() - 1) % 2 == 0,
    ensures
        Set::new(|n: Seq<char>| listed(texts(names@), n)) == unknown_names(texts(arguments@)),
{
    let ghost args = texts(arguments@);
    let pairs = (arguments.len() - 1) / 2;
    let mut names: Vec<String> = Vec::new();
    let mut k: usize = 0;
    while k < pairs
        invariant
            args == texts(arguments@),
            arguments@.len() >= 1,
            pairs == (arguments@.len() - 1) / 2,
            pairs == pair_count(args),
            k <= pairs,
            forall|n: Seq<char>| #[trigger] listed(texts(names@), n) <==> unknown_before(args, k as int, n),
        decreases pairs - k,
    {
        assert(2 * k + 2 <= arguments@.len()) by (nonlinear_arith)
            requires
                k < pairs,
                pairs == (arguments@.len() - 1) / 2,
        ;
        assert(arguments@.len() == arguments.len());
        let index: usize = k + k + 1;
        let name = &arguments[index];
        let ghost before = texts(names@);
        if !is_known(name.as_str()) {
            let mut seen = false;
            let mut i: usize = 0;
            while i < names.len()
                invariant
                    i <= names@.len(),
                    seen == exists|m: int| 0 <= m < i && names@[m]@ == name@,
                decreases names.len() - i,
            {
                if text_equal(names[i].as_str(), name.as_str()) {
                    seen = true;
                }
                i = i + 1;
            }
            if !seen {
                names.push(name.clone());
            }
        }
        proof {
            let after = texts(names@);
            assert forall|n: Seq<char>| #[trigger] listed(after, n) <==> unknown_before(args, k + 1, n) by {
                if listed(after, n) {
                    let i = choose|i: int| 0 <= i < after.len() && after[i] == n;
                    if i < before.len() {
                        assert(before[i] == n);
                        assert(listed(before, n));
                    } else {
                        assert(pair_name(args, k as int) == n);
                    }
                }
                if unknown_before(args, k + 1, n) {
                    let j = choose|j: int| 0 <= j < k + 1 && #[trigger] pair_name(args, j) == n && !is_known_option(n);
                    if j < k {
                        assert(unknown_before(args, k as int, n));
                        assert(listed(before, n));
                        let i = choose|i: int| 0 <= i < before.len() && before[i] == n;
                        assert(after[i] == n);
                    } else if after.len() > before.len() {
                        assert(after[before.len() as int] == n);
                    } else {
                        let m = choose|m: int| 0 <= m < before.len() && names@[m]@ == name@;
                        assert(after[m] == n);
                    }
                }
            }
        }
        k = k + 1;
    }
    assert(Set::new(|n: Seq<char>| listed(texts(names@), n)) =~= unknown_names(args));
    names
}

/// Reads the test client's arguments (after the program name): a command,
/// then `--name value` pairs, the last value of a repeated name winning.
/// `--host` is required; `--port` defaults to 47991 and must be in
/// `1..=65535`; `--credential-file` defaults to `.decky-power-test.json`;
/// any other name is refused.
pub fn parse_arguments(arguments: &[String]) -> (r: Result<Options, String>)
    ensures
        ({
            let args = texts(arguments@);
            if args.len() == 0 {
                r matches Err(e) && e@ == usage_text()
            } else if (args.len() - 1) % 2 == 1 {
                r matches Err(e) && e@ == "missing value for "@ + args.last() + "\n"@ + usage_text()
            } else if last_value(args, "--host"@, pair_count(args)) is None {
                r matches Err(e) && e@ == "--host is required\n"@ + usage_text()
            } else if std_parse_u16(port_text(args)) is None || std_parse_u16(port_text(args)) == Some(0u16) {
                r matches Err(e) && e@ == "--port must be in 1..=65535"@
            } else if !unknown_names(args).is_empty() {
                r matches Err(e) && exists|names: Seq<Seq<char>>|
                    Set::new(|n: Seq<char>| listed(names, n)) == unknown_names(args) && e@ == "unknown arguments: "@
                        + #[trigger] spec_debug_list(names) + "\n"@ + usage_text()
            } else {
                r matches Ok(o) && {
                    &&& o.command@ == args[0]
                    &&& Some(o.host@) == last_value(args, "--host"@, pair_count(args))
                    &&& Some(o.port) == std_parse_u16(port_text(args))
                    &&& o.credential_file@ == match last_value(args, "--credential-file"@, pair_count(args)) {
                        Some(path) => path,
                        None => ".decky-power-test.json"@,
                    }
                    &&& match o.code {
                        Some(c) => last_value(args, "--code"@, pair_count(args)) == Some(c@),
                        None => last_value(args, "--code"@, pair_count(args)) is None,
                    }
                }
            }
        }),
{
    let ghost args = texts(arguments@);
    if arguments.len() == 0 {
        return Err(usage());
    }
    if (arguments.len() - 1) % 2 == 1 {
        let last = &arguments[arguments.len() - 1];
        assert(args.last() == last@);
        let mut message = join3("missing value for ", last.as_str(), "\n");
        message.append(usage().as_str());
        return Err(message);
    }
    let host = match last_value_of(arguments, "--host") {
        Some(host) => host,
        None => {
            let mut message = String::from_str("--host is required\n");
            message.append(usage().as_str());
            return Err(message);
        },
    };
    let port_value = last_value_of(arguments, "--port");
    let port = match &port_value {
        Some(text) => parse_u16(text.as_str()),
        None => parse_u16("47991"),
    };
    let port = match port {
        Some(port) => port,
        None => {
            return Err(String::from_str("--port must be in 1..=65535"));
        },
    };
    if port == 0 {
        return Err(String::from_str("--port must be in 1..=65535"));
    }
    let credential_file = match last_value_of(arguments, "--credential-file") {
        Some(path) => path,
        None => String::from_str(".decky-power-test.json"),
    };
    let code = last_value_of(arguments, "--code");
    let unknown = unknown_options(arguments);
    if unknown.len() > 0 {
        let list_text = debug_list(&unknown);
        let mut message = join3("unknown arguments: ", list_text.as_str(), "\n");
        message.append(usage().as_str());
        proof {
            assert(spec_debug_list(texts(unknown@)) == spec_debug_list(Seq::new(unknown@.len(), |i: int| unknown@[i]@)));
            assert(texts(unknown@)[0] == unknown@[0]@);
            assert(listed(texts(unknown@), unknown@[0]@));
            assert(unknown_names(args).contains(unknown@[0]@));
        }
        return Err(message);
    }
    proof {
        if !unknown_names(args).is_empty() {
            let n = unknown_names(args).choose();
            assert(unknown_names(args).contains(n));
            assert(Set::new(|n: Seq<char>| listed(texts(unknown@), n)).contains(n));
        }
    }
    Ok(Options { command: arguments[0].clone(), host, port, code, credential_file })
}

pub open spec fn without_whitespace(s: Seq<char>) -> Seq<char>
    decreases s.len(),
{
    if s.len() == 0 {
        s
    } else if is_unicode_whitespace(s.last()) {
        without_whitespace(s.drop_last())
    } else {
        without_whitespace(s.drop_last()).push(s.last())
    }
}

/// The pairing code given to `pair`, with whitespace removed; it must then
/// be six digits.
pub fn pairing_code_argument(code: Option<&str>) -> (r: Result<String, String>)
    ensures
        match code {
            None => r matches Err(e) && e@ == "pair requires --code"@,
            Some(c) => if is_pairing_code(without_whitespace(c@)) {
                r matches Ok(v) && v@ == without_whitespace(c@)
            } else {
                r matches Err(e) && e@ == "pairing code must contain six digits"@
            },
        },
{
    let code = match code {
        Some(code) => code,
        None => {
            return Err(String::from_str("pair requires --code"));
        },
    };
    let n = code.unicode_len();
    let mut kept = String::new();
    let mut digits: usize = 0;
    let mut all_digits = true;
    let mut i: usize = 0;
    while i < n
        invariant
            n == code@.len(),
            i <= n,
            kept@ == without_whitespace(code@.subrange(0, i as int)),
            digits == kept@.len(),
            digits <= i,
            all_digits == crate::decimal::all_digits(kept@),
        decreases n - i,
    {
        let c = code.get_char(i);
        assert(code@.subrange(0, i + 1).drop_last() =~= code@.subrange(0, i as int));
        if !is_whitespace(c) {
            if !('0' <= c && c <= '9') {
                all_digits = false;
            }
            let ghost previous = kept@;
            kept.append(code.substring_char(i, i + 1));
            assert(kept@ =~= previous.push(c));
            assert(crate::decimal::all_digits(kept@) == (crate::decimal::all_digits(previous) && '0' <= c
                && c <= '9')) by {
                if crate::decimal::all_digits(kept@) {
                    assert(kept@[previous.len() as int] == c);
                    assert forall|j: int| 0 <= j < previous.len() implies crate::decimal::is_digit(
                        #[trigger] previous[j],
                    ) by {
                        assert(kept@[j] == previous[j]);
                    }
                }
            }
            digits = digits + 1;
        }
        i = i + 1;
    }
    assert(code@.subrange(0, n as int) =~= code@);
    if digits == 6 && all_digits {
        Ok(kept)
    } else {
        Err(String::from_str("pairing code must contain six digits"))
    }
}

} // verus!
