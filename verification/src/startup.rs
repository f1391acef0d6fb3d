use vstd::prelude::*;
use percent_encoding::{utf8_percent_encode, NON_ALPHANUMERIC};

use crate::text::{concat_str, str_eq};

verus! {

broadcast use vstd::string::group_string_axioms;

/// What the shell asked the editor to do with an archive.
#[derive(Clone, Copy, Debug, PartialEq, Eq, Structural)]
pub enum StartupAction {
    Open,
    Test,
    Extract,
}

/// An archive the editor was started with, and what to do with it.
#[derive(Clone, Debug)]
pub struct StartupRequest {
    pub action: StartupAction,
    pub archive_path: String,
}

/// The action a shell flag names.
pub open spec fn spec_action_flag(flag: Seq<char>) -> Option<StartupAction> {
    if flag == "--arca-shell-open"@ {
        Some(StartupAction::Open)
    } else if flag == "--arca-shell-test"@ {
        Some(StartupAction::Test)
    } else if flag == "--arca-shell-extract"@ {
        Some(StartupAction::Extract)
    } else {
        None
    }
}

/// The action a command-line argument names, if it is one of the shell flags
/// (an argument that is not UTF-8 names none).
pub fn startup_action_flag(flag: Option<&str>) -> (r: Option<StartupAction>)
    ensures
        match flag {
            Some(f) => r == spec_action_flag(f@),
            None => r is None,
        },
{
    let flag = match flag {
        Some(f) => f,
        None => {
            return None;
        },
    };
    if str_eq(flag, "--arca-shell-open") {
        Some(StartupAction::Open)
    } else if str_eq(flag, "--arca-shell-test") {
        Some(StartupAction::Test)
    } else if str_eq(flag, "--arca-shell-extract") {
        Some(StartupAction::Extract)
    } else {
        None
    }
}

/// The flag an argument gives, if it is a UTF-8 shell flag.
pub open spec fn arg_flag(arg: Option<String>) -> Option<StartupAction> {
    match arg {
        Some(a) => spec_action_flag(a@),
        None => None,
    }
}

/// The archive arguments from index `i` on, each with the action it was
/// asked for: a shell flag applies to the argument after it (a flag at the
/// end is dropped), any other argument is opened.
pub open spec fn candidates_from(args: Seq<Option<String>>, i: int) -> Seq<(StartupAction, usize)>
    decreases args.len() - i,
{
    if i >= args.len() || i < 0 {
        Seq::<(StartupAction, usize)>::empty()
    } else {
        match arg_flag(args[i]) {
            Some(action) => if i + 1 < args.len() {
                seq![(action, (i + 1) as usize)] + candidates_from(args, i + 2)
            } else {
                Seq::<(StartupAction, usize)>::empty()
            },
            None => seq![(StartupAction::Open, i as usize)] + candidates_from(args, i + 1),
        }
    }
}

/// The arguments the editor was started with that may name archives, by
/// index, with the action for each; the program name is skipped. Whether each
/// names an archive file is checked by the caller.
pub fn startup_candidates(args: &Vec<Option<String>>) -> (r: Vec<(StartupAction, usize)>)
    ensures
        r@ == candidates_from(args@, 1),
{
    let mut out: Vec<(StartupAction, usize)> = Vec::new();
    let mut i: usize = 1;
    if args.len() == 0 {
        return out;
    }
    while i < args.len()
        invariant
            1 <= i,
            args@.len() > 0,
            i <= args@.len() + 1,
            out@ + candidates_from(args@, i as int) == candidates_from(args@, 1),
        decreases args.len() + 1 - i,
    {
        let flag = match &args[i] {
            Some(a) => startup_action_flag(Some(a.as_str())),
            None => None,
        };
        let ghost before = out@;
        match flag {
            Some(action) => {
                if i + 1 < args.len() {
                    out.push((action, i + 1));
                    proof {
                        assert(out@ == before + seq![(action, (i + 1) as usize)]);
                        assert(before + candidates_from(args@, i as int) == before + (seq![(action, (i + 1) as usize)]
                            + candidates_from(args@, i + 2)));
                        assert(before + (seq![(action, (i + 1) as usize)] + candidates_from(args@, i + 2)) == out@
                            + candidates_from(args@, i + 2));
                    }
                    i = i + 2;
                } else {
                    proof {
                        assert(candidates_from(args@, i as int) == Seq::<(StartupAction, usize)>::empty());
                        assert(candidates_from(args@, i + 1) == Seq::<(StartupAction, usize)>::empty());
                        assert(out@ + candidates_from(args@, i as int) == out@);
                        assert(out@ + candidates_from(args@, i + 1) == out@);
                    }
                    i = i + 1;
                }
            },
            None => {
                out.push((StartupAction::Open, i));
                proof {
                    assert(before + candidates_from(args@, i as int) == before + (seq![(StartupAction::Open, i as usize)]
                        + candidates_from(args@, i + 1)));
                    assert(before + (seq![(StartupAction::Open, i as usize)] + candidates_from(args@, i + 1)) == out@
                        + candidates_from(args@, i + 1));
                }
                i = i + 1;
            },
        }
    }
    proof {
        assert(candidates_from(args@, i as int) == Seq::<(StartupAction, usize)>::empty());
        assert(out@ + Seq::<(StartupAction, usize)>::empty() == out@);
    }
    out
}

/// The request a new window should run by itself: a single request to test
/// or extract an archive.
pub fn startup_shell_operation_request(requests: &Vec<StartupRequest>) -> (r: Option<&StartupRequest>)
    ensures
        r is Some <==> requests@.len() == 1 && requests@[0].action != StartupAction::Open,
        r matches Some(q) ==> *q == requests@[0],
{
    if requests.len() != 1 {
        return None;
    }
    let request = &requests[0];
    match request.action {
        StartupAction::Extract | StartupAction::Test => Some(request),
        StartupAction::Open => None,
    }
}

/// The query value of a shell action.
pub open spec fn spec_action_query(action: StartupAction) -> &'static str {
    match action {
        StartupAction::Extract => "extract",
        StartupAction::Test => "test",
        StartupAction::Open => "open",
    }
}

/// The query value of a shell action.
pub fn shell_operation_action_query(action: StartupAction) -> (r: &'static str)
    ensures
        r == spec_action_query(action),
{
    match action {
        StartupAction::Extract => "extract",
        StartupAction::Test => "test",
        StartupAction::Open => "open",
    }
}

/// An upper-case hexadecimal digit.
pub open spec fn upper_hex(v: u8) -> char {
    if v < 10 {
        (('0' as u8) + v) as char
    } else {
        (('A' as u8) + (v - 10)) as char
    }
}

/// An ASCII letter or digit.
pub open spec fn is_ascii_alphanumeric(b: u8) -> bool {
    (48 <= b <= 57) || (65 <= b <= 90) || (97 <= b <= 122)
}

/// Bytes with everything but ASCII letters and digits written as `%XX`.
pub open spec fn percent_encoded(bytes: Seq<u8>) -> Seq<char>
    decreases bytes.len(),
{
    if bytes.len() == 0 {
        Seq::<char>::empty()
    } else {
        let b = bytes.last();
        let head = percent_encoded(bytes.drop_last());
        if is_ascii_alphanumeric(b) {
            head.push(b as char)
        } else {
            head.push('%').push(upper_hex(b / 16)).push(upper_hex(b % 16))
        }
    }
}

/// `utf8_percent_encode` of the percent_encoding crate with its
/// `NON_ALPHANUMERIC` set: the UTF-8 bytes of the text, each byte that is not
/// an ASCII letter or digit written as `%` and two upper-case hexadecimal
/// digits.
#[verifier::external_body]
fn percent_encode_text(text: &str) -> (r: String)
    ensures
        r@ == percent_encoded(vstd::utf8::encode_utf8(text@)),
{
    utf8_percent_encode(text, NON_ALPHANUMERIC).to_string()
}

/// The page a window for a shell request opens.
pub fn shell_operation_window_url(request: &StartupRequest) -> (r: String)
    ensures
        r@ == "index.html?shellAction="@ + spec_action_query(request.action)@ + "&archivePath="@ + percent_encoded(
            vstd::utf8::encode_utf8(request.archive_path@),
        ),
{
    let head = concat_str("index.html?shellAction=", shell_operation_action_query(request.action));
    let head = concat_str(head.as_str(), "&archivePath=");
    let encoded = percent_encode_text(request.archive_path.as_str());
    concat_str(head.as_str(), encoded.as_str())
}

} // verus!
