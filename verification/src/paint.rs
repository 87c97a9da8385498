use vstd::prelude::*;
use yansi::Paint;

verus! {

/// The ANSI escape character.
pub open spec fn esc() -> char {
    '\u{1b}'
}

/// Text between the escape sequence of a style and the reset sequence.
pub open spec fn styled(code: Seq<char>, t: Seq<char>) -> Seq<char> {
    seq![esc(), '['] + code + seq!['m'] + t + seq![esc(), '[', '0', 'm']
}

/// What yansi writes for text in a style: the styled text when styling is
/// enabled, the bare text when it is not (yansi decides this from a global
/// setting and the platform's support for escape sequences).
pub open spec fn painted(code: Seq<char>, t: Seq<char>, r: Seq<char>) -> bool {
    r == t || r == styled(code, t)
}

pub open spec fn red_code() -> Seq<char> {
    seq!['3', '1']
}

pub open spec fn green_code() -> Seq<char> {
    seq!['3', '2']
}

pub open spec fn yellow_code() -> Seq<char> {
    seq!['3', '3']
}

pub open spec fn blue_code() -> Seq<char> {
    seq!['3', '4']
}

pub open spec fn cyan_code() -> Seq<char> {
    seq!['3', '6']
}

pub open spec fn bold_cyan_code() -> Seq<char> {
    seq!['1', ';', '3', '6']
}

pub open spec fn bright_blue_code() -> Seq<char> {
    seq!['9', '4']
}

pub open spec fn bright_white_code() -> Seq<char> {
    seq!['9', '7']
}

pub open spec fn underline_code() -> Seq<char> {
    seq!['4']
}

pub open spec fn italic_code() -> Seq<char> {
    seq!['3']
}

/// yansi's `Paint::red`, written out with `to_string`.
#[verifier::external_body]
pub(crate) fn red(s: &str) -> (r: String)
    ensures
        painted(red_code(), s@, r@),
{
    s.red().to_string()
}

/// yansi's `Paint::green`, written out with `to_string`.
#[verifier::external_body]
pub(crate) fn green(s: &str) -> (r: String)
    ensures
        painted(green_code(), s@, r@),
{
    s.green().to_string()
}

/// yansi's `Paint::yellow`, written out with `to_string`.
#[verifier::external_body]
pub(crate) fn yellow(s: &str) -> (r: String)
    ensures
        painted(yellow_code(), s@, r@),
{
    s.yellow().to_string()
}

/// yansi's `Paint::blue`, written out with `to_string`.
#[verifier::external_body]
pub(crate) fn blue(s: &str) -> (r: String)
    ensures
        painted(blue_code(), s@, r@),
{
    s.blue().to_string()
}

/// yansi's `Paint::cyan`, written out with `to_string`.
#[verifier::external_body]
pub(crate) fn cyan(s: &str) -> (r: String)
    ensures
        painted(cyan_code(), s@, r@),
{
    s.cyan().to_string()
}

/// yansi's `Paint::cyan` then `bold`, written out with `to_string`.
#[verifier::external_body]
pub(crate) fn bold_cyan(s: &str) -> (r: String)
    ensures
        painted(bold_cyan_code(), s@, r@),
{
    s.cyan().bold().to_string()
}

/// yansi's `Paint::bright_blue`, written out with `to_string`.
#[verifier::external_body]
pub(crate) fn bright_blue(s: &str) -> (r: String)
    ensures
        painted(bright_blue_code(), s@, r@),
{
    s.bright_blue().to_string()
}

/// yansi's `Paint::bright_white`, written out with `to_string`.
#[verifier::external_body]
pub(crate) fn bright_white(s: &str) -> (r: String)
    ensures
        painted(bright_white_code(), s@, r@),
{
    s.bright_white().to_string()
}

/// yansi's `Paint::underline`, written out with `to_string`.
#[verifier::external_body]
pub(crate) fn underline(s: &str) -> (r: String)
    ensures
        painted(underline_code(), s@, r@),
{
    s.underline().to_string()
}

/// yansi's `Paint::italic`, written out with `to_string`.
#[verifier::external_body]
pub(crate) fn italic(s: &str) -> (r: String)
    ensures
        painted(italic_code(), s@, r@),
{
    s.italic().to_string()
}

} // verus!
