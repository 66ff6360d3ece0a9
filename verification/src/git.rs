//! What the manager decides around git: the request to the credential
//! helper, and the reading of what the helper answers. Running the helper
//! and cloning are the host's.

use crate::text::chars_of;
use crate::utils::error::EnzoError;
use vstd::prelude::*;
use vstd::string::*;

verus! {

/// Makes `target` a repository of its own. Nothing is done for that yet.
pub fn init(target: &str) -> (outcome: Result<(), EnzoError>)
    ensures
        outcome is Ok,
{
    Ok(())
}

/// What the credential helper is asked for `protocol` and `host`: a line
/// for each, and an empty line.
pub open spec fn credential_request_text(protocol: Seq<char>, host: Seq<char>) -> Seq<char> {
    "protocol="@ + protocol + "\nhost="@ + host + "\n\n"@
}

/// The request to the credential helper for `protocol` and `host`.
pub fn credential_request(protocol: &str, host: &str) -> (request: String)
    ensures
        request@ == credential_request_text(protocol@, host@),
{
    let mut request = String::from_str("protocol=");
    request.append(protocol);
    request.append("\nhost=");
    request.append(host);
    request.append("\n\n");
    request
}

/// Where the line that begins at `from` ends: at the next line feed, or at
/// the end of `s`.
pub open spec fn line_end(s: Seq<char>, from: int) -> int
    decreases s.len() - from,
{
    if from < 0 || from >= s.len() {
        s.len() as int
    } else if s[from] == '\n' {
        from
    } else {
        line_end(s, from + 1)
    }
}

/// The line of `s` that begins at `from`, without its line feed and
/// without a carriage return before the line feed.
pub open spec fn line_at(s: Seq<char>, from: int) -> Seq<char> {
    let end = line_end(s, from);
    if from < end && s[end - 1] == '\r' {
        s.subrange(from, end - 1)
    } else {
        s.subrange(from, end)
    }
}

/// The length of the key that each line of the helper's answer begins
/// with, `username=` or `password=`.
pub const KEY_LEN: usize = 9;

/// The user name and the password in `output`, the helper's answer, of
/// which the first `skip` characters repeat the request. The two lines
/// after those characters hold them, each behind its key of nine
/// characters, which is not compared. `None` where `output` does not hold
/// two such lines.
pub open spec fn credentials_in(output: Seq<char>, skip: int) -> Option<(Seq<char>, Seq<char>)> {
    let second = line_end(output, skip) + 1;
    if 0 <= skip < output.len() && second < output.len() && line_at(output, skip).len() >= KEY_LEN
        && line_at(output, second).len() >= KEY_LEN {
        Some(
            (
                line_at(output, skip).skip(KEY_LEN as int),
                line_at(output, second).skip(KEY_LEN as int),
            ),
        )
    } else {
        None
    }
}

/// Where the line that begins at `from` ends.
fn find_line_end(chars: &Vec<char>, from: usize) -> (end: usize)
    requires
        from <= chars@.len(),
    ensures
        end == line_end(chars@, from as int),
        from <= end <= chars@.len(),
{
    let mut i = from;
    while i < chars.len() && chars[i] != '\n'
        invariant
            from <= i <= chars@.len(),
            line_end(chars@, from as int) == line_end(chars@, i as int),
        decreases chars@.len() - i,
    {
        i += 1;
    }
    i
}

/// Where the text of the line from `from` to `end` stops: before a
/// carriage return at its end, if it has one.
fn text_end(chars: &Vec<char>, from: usize, end: usize) -> (stop: usize)
    requires
        from <= end <= chars@.len(),
        end == line_end(chars@, from as int),
    ensures
        from <= stop <= end,
        line_at(chars@, from as int) == chars@.subrange(from as int, stop as int),
{
    if from < end && chars[end - 1] == '\r' {
        end - 1
    } else {
        end
    }
}

/// Reads the user name and the password out of `output`, the credential
/// helper's answer to a request of `skip` characters.
pub fn read_credentials(output: &str, skip: usize) -> (found: Option<(String, String)>)
    ensures
        match found {
            Some((username, password)) => credentials_in(output@, skip as int) == Some(
                (username@, password@),
            ),
            None => credentials_in(output@, skip as int) is None,
        },
{
    let chars = chars_of(output);
    let len = chars.len();
    if skip >= len {
        return None;
    }
    let first_end = find_line_end(&chars, skip);
    if first_end >= len - 1 {
        return None;
    }
    let second = first_end + 1;
    let second_end = find_line_end(&chars, second);
    let first_stop = text_end(&chars, skip, first_end);
    let second_stop = text_end(&chars, second, second_end);
    if first_stop - skip < KEY_LEN || second_stop - second < KEY_LEN {
        return None;
    }
    let username = output.substring_char(skip + KEY_LEN, first_stop);
    let password = output.substring_char(second + KEY_LEN, second_stop);
    proof {
        assert(username@ =~= line_at(output@, skip as int).skip(KEY_LEN as int));
        assert(password@ =~= line_at(output@, second as int).skip(KEY_LEN as int));
    }
    Some((String::from_str(username), String::from_str(password)))
}

} // verus!
