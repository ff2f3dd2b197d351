//! One exchange of the interactive session: telling the exit command from
//! a line to hash, and writing what is logged and shown for a digest.

use crate::encoding::{base64_text, binary_digits, hash_to_base64, hash_to_binary_string};
use vstd::prelude::*;

verus! {

/// What `str::trim` leaves of a line: the line without its leading and
/// trailing whitespace.
pub uninterp spec fn trimmed(line: Seq<char>) -> Seq<char>;

/// Calls `str::trim`.
///
/// Taken on trust: the result is the standard library's trimming of
/// exactly this line. Which characters count as whitespace is left to the
/// standard library.
#[verifier::external_body]
fn trim_line(line: &str) -> (text: &str)
    ensures
        text@ == trimmed(line@),
{
    line.trim()
}

/// Whether `text` is the word `exit`, in any mix of upper and lower case.
pub open spec fn is_exit(text: Seq<char>) -> bool {
    &&& text.len() == 4
    &&& (text[0] == 'e' || text[0] == 'E')
    &&& (text[1] == 'x' || text[1] == 'X')
    &&& (text[2] == 'i' || text[2] == 'I')
    &&& (text[3] == 't' || text[3] == 'T')
}

/// The record that is logged for one digest.
pub open spec fn log_text(
    input: Seq<char>,
    salt: Seq<char>,
    pepper: Seq<char>,
    binary: Seq<char>,
    base64: Seq<char>,
) -> Seq<char> {
    "Input: '"@ + input + "'\nSalt: '"@ + salt + "'\nPepper: '"@ + pepper + "'\nBinary Hash: "@
        + binary + "\nBase64 Hash: "@ + base64 + "\n\n\n"@
}

/// The line that is shown for one digest.
pub open spec fn console_text(base64: Seq<char>) -> Seq<char> {
    "(Base64): "@ + base64
}

/// Tells whether `text` is the exit command.
pub fn is_exit_command(text: &str) -> (exit: bool)
    ensures
        exit == is_exit(text@),
{
    if text.unicode_len() != 4 {
        return false;
    }
    let c0: char = text.get_char(0);
    let c1: char = text.get_char(1);
    let c2: char = text.get_char(2);
    let c3: char = text.get_char(3);
    (c0 == 'e' || c0 == 'E') && (c1 == 'x' || c1 == 'X') && (c2 == 'i' || c2 == 'I') && (c3 == 't'
        || c3 == 'T')
}

/// Reads one line of the session: `None` for the exit command, else the
/// text to hash, which is the line without the whitespace around it.
pub fn read_command(line: &str) -> (command: Option<&str>)
    ensures
        command is None <==> is_exit(trimmed(line@)),
        command matches Some(text) ==> text@ == trimmed(line@),
{
    let text: &str = trim_line(line);
    if is_exit_command(text) {
        None
    } else {
        Some(text)
    }
}

/// Writes the log record for `hash`, the digest of `input` under `salt`
/// and `pepper`: the three strings in quotes, then the digest in binary
/// and in Base64, then an empty line.
pub fn log_entry(input: &str, salt: &str, pepper: &str, hash: &[u8; 32]) -> (entry: String)
    ensures
        entry@ == log_text(input@, salt@, pepper@, binary_digits(hash@), base64_text(hash@)),
{
    let binary: String = hash_to_binary_string(hash);
    let base64: String = hash_to_base64(hash);
    let mut entry: String = String::new();
    entry.append("Input: '");
    entry.append(input);
    entry.append("'\nSalt: '");
    entry.append(salt);
    entry.append("'\nPepper: '");
    entry.append(pepper);
    entry.append("'\nBinary Hash: ");
    entry.append(binary.as_str());
    entry.append("\nBase64 Hash: ");
    entry.append(base64.as_str());
    entry.append("\n\n\n");
    assert(entry@ =~= log_text(
        input@,
        salt@,
        pepper@,
        binary_digits(hash@),
        base64_text(hash@),
    ));
    entry
}

/// Writes the line that is shown for `hash`: its Base64 form after a
/// label.
pub fn console_line(hash: &[u8; 32]) -> (line: String)
    ensures
        line@ == console_text(base64_text(hash@)),
{
    let base64: String = hash_to_base64(hash);
    let mut line: String = String::new();
    line.append("(Base64): ");
    line.append(base64.as_str());
    assert(line@ =~= console_text(base64_text(hash@)));
    line
}

} // verus!
