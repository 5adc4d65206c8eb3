//! Generating a password or passphrase for the add wizard with the
//! `keysmith` binary. `--raw` makes it print exactly one secret on
//! stdout, with no banner, meter or color. Running the program is left
//! to the caller; this module says what to run and reads what came back.
use crate::text::{trim, trimmed};
use vstd::prelude::*;

verus! {

/// What to generate.
#[derive(Clone, Copy, Debug, PartialEq, Eq, Structural)]
pub enum Kind {
    Password,
    Passphrase,
}

/// The arguments that ask `keysmith` for one secret of this kind.
pub open spec fn args_spec(kind: Kind) -> Seq<Seq<char>> {
    match kind {
        Kind::Password => seq!["password"@, "--raw"@, "--length"@, "24"@],
        Kind::Passphrase => seq!["passphrase"@, "--raw"@],
    }
}

pub open spec fn str_views(args: Seq<&str>) -> Seq<Seq<char>> {
    args.map_values(|a: &str| a@)
}

/// What `keysmith`'s exit status and output mean: a failure carries its
/// trimmed stderr, blank output is an error, and otherwise the secret is
/// the trimmed stdout.
pub open spec fn generated_spec(succeeded: bool, stdout: Seq<char>, stderr: Seq<char>) -> Result<Seq<char>, Seq<char>> {
    if !succeeded {
        Err("keysmith exited with an error: "@ + trimmed(stderr))
    } else if trimmed(stdout).len() == 0 {
        Err("keysmith produced no output"@)
    } else {
        Ok(trimmed(stdout))
    }
}

pub open spec fn result_view(r: Result<String, String>) -> Result<Seq<char>, Seq<char>> {
    match r {
        Ok(s) => Ok(s@),
        Err(e) => Err(e@),
    }
}

/// The command-line arguments for `keysmith`.
pub fn generation_args(kind: Kind) -> (args: Vec<&'static str>)
    ensures
        str_views(args@) == args_spec(kind),
{
    let mut args: Vec<&'static str> = Vec::new();
    match kind {
        Kind::Password => {
            args.push("password");
            args.push("--raw");
            args.push("--length");
            args.push("24");
        },
        Kind::Passphrase => {
            args.push("passphrase");
            args.push("--raw");
        },
    }
    assert(str_views(args@) =~= args_spec(kind));
    args
}

/// Reads the outcome of running `keysmith`: whether it exited
/// successfully, and its stdout and stderr as text.
pub fn generation_result(succeeded: bool, stdout: &str, stderr: &str) -> (result: Result<String, String>)
    ensures
        result_view(result) == generated_spec(succeeded, stdout@, stderr@),
{
    if !succeeded {
        let mut message = String::from_str("keysmith exited with an error: ");
        let detail = trim(stderr);
        message.append(detail.as_str());
        return Err(message);
    }
    let secret = trim(stdout);
    if secret.as_str().is_empty() {
        return Err(String::from_str("keysmith produced no output"));
    }
    Ok(secret)
}

} // verus!
