//! Naming helpers: sanitising model names and building model file names.

use vstd::prelude::*;
use vstd::string::StringExecFns;

verus! {

/// How a single character of a model name is sanitised: digits and lower-case
/// ASCII letters are kept, upper-case ASCII letters are lowered, and every
/// other character becomes an underscore.
pub open spec fn clean_char(c: char) -> char {
    if '0' <= c && c <= '9' {
        c
    } else if 'a' <= c && c <= 'z' {
        c
    } else if 'A' <= c && c <= 'Z' {
        (((c as u32) + 32) as char)
    } else {
        '_'
    }
}

/// A sanitised name: every character mapped through `clean_char`.
pub open spec fn clean_name(s: Seq<char>) -> Seq<char> {
    s.map_values(|c: char| clean_char(c))
}

fn clean_char_exec(c: char) -> (r: char)
    ensures
        r == clean_char(c),
{
    let u = c as u32;
    if 48 <= u && u <= 57 {
        c
    } else if 97 <= u && u <= 122 {
        c
    } else if 65 <= u && u <= 90 {
        match c {
            'A' => 'a',
            'B' => 'b',
            'C' => 'c',
            'D' => 'd',
            'E' => 'e',
            'F' => 'f',
            'G' => 'g',
            'H' => 'h',
            'I' => 'i',
            'J' => 'j',
            'K' => 'k',
            'L' => 'l',
            'M' => 'm',
            'N' => 'n',
            'O' => 'o',
            'P' => 'p',
            'Q' => 'q',
            'R' => 'r',
            'S' => 's',
            'T' => 't',
            'U' => 'u',
            'V' => 'v',
            'W' => 'w',
            'X' => 'x',
            'Y' => 'y',
            _ => 'z',
        }
    } else {
        '_'
    }
}

/// Relies on `String::push`: appends one character at the end of the string.
#[verifier::external_body]
fn push_char(s: &mut String, c: char)
    ensures
        final(s)@ == old(s)@.push(c),
{
    s.push(c)
}

/// Replaces every character of `s` that is not an ASCII digit or letter by an
/// underscore and lowers upper-case ASCII letters.
pub fn remove_non_alphanum(s: &str) -> (r: String)
    ensures
        r@ == clean_name(s@),
{
    let mut out = String::new();
    for c in it: s.chars()
        invariant
            out@ == clean_name(it.seq().take(it.index() as int)),
            it.seq() == s@,
    {
        let cc = clean_char_exec(c);
        push_char(&mut out, cc);
        proof {
            assert(out@ =~= clean_name(it.seq().take(it.index() + 1)));
        }
    }
    proof {
        assert(out@ =~= clean_name(s@));
    }
    out
}

/// The on-disk file name used for a model: the sanitised model name under a
/// `models/` directory, with the given extension.
pub fn model_filename(name: &str, extension: &str) -> (r: String)
    ensures
        r@ == "models/"@ + clean_name(name@) + "."@ + extension@,
{
    let cleaned = remove_non_alphanum(name);
    let prefix: String = "models/".to_owned();
    let with_name = prefix.concat(cleaned.as_str());
    let with_dot = with_name.concat(".");
    with_dot.concat(extension)
}

} // verus!
