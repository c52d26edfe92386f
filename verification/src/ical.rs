//! iCalendar (RFC 5545) reading: content lines, properties and the VEVENT
//! component of a calendar object.
//!
//! Lines may end in CRLF or LF; a line break followed by a space or a tab
//! continues the previous line. Property names are matched as written
//! (upper case, as servers send them). A DTSTART or DTEND with a TZID
//! parameter names a time zone this reader has no rules for, and is
//! refused; a date-time without a zone is read as UTC.

use crate::text::{chars_of, has_prefix, slice_chars, starts_with, string_of};
use crate::time::{civil_to_unix, utc_from_civil, valid_civil, Timestamp};
use vstd::prelude::*;

verus! {

broadcast use vstd::string::group_string_axioms;

// ---------------------------------------------------------------------------
// Specification
// ---------------------------------------------------------------------------

/// A space or a horizontal tab.
pub open spec fn is_wsp(c: char) -> bool {
    c == ' ' || c == '\t'
}

/// The text with every folded line break (CRLF or LF followed by one space
/// or tab) removed together with that whitespace character.
pub open spec fn unfold_spec(s: Seq<char>) -> Seq<char>
    decreases s.len(),
{
    if s.len() == 0 {
        s
    } else if s.len() >= 3 && s[0] == '\r' && s[1] == '\n' && is_wsp(s[2]) {
        unfold_spec(s.skip(3))
    } else if s.len() >= 2 && s[0] == '\n' && is_wsp(s[1]) {
        unfold_spec(s.skip(2))
    } else {
        seq![s[0]] + unfold_spec(s.skip(1))
    }
}

/// The line without its trailing carriage return, if it has one.
pub open spec fn strip_cr(l: Seq<char>) -> Seq<char> {
    if l.len() > 0 && l.last() == '\r' {
        l.drop_last()
    } else {
        l
    }
}

/// The index of the first line feed of `s`, or its length if it has none.
pub open spec fn newline_index(s: Seq<char>) -> nat
    decreases s.len(),
{
    if s.len() == 0 {
        0
    } else if s[0] == '\n' {
        0
    } else {
        1 + newline_index(s.skip(1))
    }
}

/// The lines of `s`: the pieces between line feeds, each without a trailing
/// carriage return. A text of `k` line feeds has `k + 1` lines.
pub open spec fn split_lines(s: Seq<char>) -> Seq<Seq<char>>
    decreases s.len(),
{
    let k = newline_index(s);
    if k >= s.len() {
        seq![strip_cr(s)]
    } else {
        seq![strip_cr(s.take(k as int))] + split_lines(s.skip(k + 1 as int))
    }
}

/// The content lines of an iCalendar text.
pub open spec fn content_lines(data: Seq<char>) -> Seq<Seq<char>> {
    split_lines(unfold_spec(data))
}

/// The line is a content line of property `name`: the name, then `:` or `;`.
pub open spec fn names_property(line: Seq<char>, name: Seq<char>) -> bool {
    name.len() < line.len() && starts_with(line, name) && (line[name.len() as int] == ':'
        || line[name.len() as int] == ';')
}

/// The first `:` at or after `i` that is outside double quotes, counting
/// quotes from `i` on with `quoted` as the state at `i`.
pub open spec fn value_colon(l: Seq<char>, i: nat, quoted: bool) -> Option<nat>
    decreases l.len() - i,
{
    if i >= l.len() {
        None
    } else if l[i as int] == '"' {
        value_colon(l, i + 1, !quoted)
    } else if l[i as int] == ':' && !quoted {
        Some(i)
    } else {
        value_colon(l, i + 1, quoted)
    }
}

/// The raw value of property `name` on this line: what follows the first
/// unquoted `:` after the name and its parameters.
pub open spec fn prop_value(line: Seq<char>, name: Seq<char>) -> Option<Seq<char>> {
    if names_property(line, name) {
        match value_colon(line, name.len(), false) {
            Some(c) => Some(line.skip(c + 1 as int)),
            None => None,
        }
    } else {
        None
    }
}

/// TEXT unescaping: `\n` and `\N` become a line feed, `\\`, `\;` and `\,`
/// the escaped character; any other backslash stays.
pub open spec fn unescape_spec(s: Seq<char>) -> Seq<char>
    decreases s.len(),
{
    if s.len() == 0 {
        s
    } else if s[0] == '\\' && s.len() >= 2 && (s[1] == 'n' || s[1] == 'N') {
        seq!['\n'] + unescape_spec(s.skip(2))
    } else if s[0] == '\\' && s.len() >= 2 && (s[1] == '\\' || s[1] == ';' || s[1] == ',') {
        seq![s[1]] + unescape_spec(s.skip(2))
    } else {
        seq![s[0]] + unescape_spec(s.skip(1))
    }
}

/// The unescaped value of property `name` on the first line, from line `i`
/// on, that carries it.
pub open spec fn find_property_from(lines: Seq<Seq<char>>, name: Seq<char>, i: nat) -> Option<
    Seq<char>,
>
    decreases lines.len() - i,
{
    if i >= lines.len() {
        None
    } else {
        match prop_value(lines[i as int], name) {
            Some(v) => Some(unescape_spec(v)),
            None => find_property_from(lines, name, i + 1),
        }
    }
}

/// The unescaped value of property `name` on the first line that carries it.
pub open spec fn find_property(lines: Seq<Seq<char>>, name: Seq<char>) -> Option<Seq<char>> {
    find_property_from(lines, name, 0)
}

/// The parameters of property `name` on this line: what lies between the
/// name and the first unquoted `:`.
pub open spec fn prop_params(line: Seq<char>, name: Seq<char>) -> Option<Seq<char>> {
    if names_property(line, name) {
        match value_colon(line, name.len(), false) {
            Some(c) => Some(line.subrange(name.len() as int, c as int)),
            None => None,
        }
    } else {
        None
    }
}

/// The parameters of property `name` on the first line, from line `i` on,
/// that carries it (the line `find_property_from` reads).
pub open spec fn property_params_from(lines: Seq<Seq<char>>, name: Seq<char>, i: nat) -> Option<
    Seq<char>,
>
    decreases lines.len() - i,
{
    if i >= lines.len() {
        None
    } else {
        match prop_params(lines[i as int], name) {
            Some(p) => Some(p),
            None => property_params_from(lines, name, i + 1),
        }
    }
}

/// The parameters hold a `TZID` parameter.
pub open spec fn has_tzid(p: Seq<char>) -> bool {
    exists|k: int|
        0 <= k && k + 6 <= p.len() && #[trigger] p[k] == ';' && p[k + 1] == 'T' && p[k + 2] == 'Z'
            && p[k + 3] == 'I' && p[k + 4] == 'D' && p[k + 5] == '='
}

/// The first line carrying property `name` gives it a `TZID` parameter.
pub open spec fn tzid_qualified(lines: Seq<Seq<char>>, name: Seq<char>) -> bool {
    match property_params_from(lines, name, 0) {
        Some(p) => has_tzid(p),
        None => false,
    }
}

/// The value of property `property` in an iCalendar text.
pub open spec fn spec_extract_property(data: Seq<char>, property: Seq<char>) -> Option<Seq<char>> {
    find_property(content_lines(data), property)
}

/// The index of the first line, from `i` on, equal to `target`.
pub open spec fn first_line_from(lines: Seq<Seq<char>>, target: Seq<char>, i: nat) -> Option<nat>
    decreases lines.len() - i,
{
    if i >= lines.len() {
        None
    } else if lines[i as int] == target {
        Some(i)
    } else {
        first_line_from(lines, target, i + 1)
    }
}

/// `acc` placed before the lines of `o`, if there are any.
pub open spec fn prepend_lines(acc: Seq<Seq<char>>, o: Option<Seq<Seq<char>>>) -> Option<
    Seq<Seq<char>>,
> {
    match o {
        Some(b) => Some(acc + b),
        None => None,
    }
}

/// The component's own lines from line `i` on, `depth` sub-components deep:
/// the lines outside any nested `BEGIN:`/`END:` pair, up to the `END:` line
/// that closes the component; `None` when that line never comes.
pub open spec fn component_lines(lines: Seq<Seq<char>>, i: nat, depth: nat) -> Option<
    Seq<Seq<char>>,
>
    decreases lines.len() - i,
{
    if i >= lines.len() {
        None
    } else {
        let l = lines[i as int];
        if starts_with(l, "BEGIN:"@) {
            component_lines(lines, i + 1, depth + 1)
        } else if starts_with(l, "END:"@) {
            if depth == 0 {
                Some(Seq::empty())
            } else {
                component_lines(lines, i + 1, (depth - 1) as nat)
            }
        } else if depth == 0 {
            prepend_lines(seq![l], component_lines(lines, i + 1, 0))
        } else {
            component_lines(lines, i + 1, depth)
        }
    }
}

/// Whether `c` is an ASCII digit.
pub open spec fn is_digit(c: char) -> bool {
    '0' <= c <= '9'
}

/// The value of the digit at `i`.
pub open spec fn dig(s: Seq<char>, i: int) -> int {
    s[i] as int - '0' as int
}

/// All characters in `[from, to)` are digits.
pub open spec fn digits_in(s: Seq<char>, from: int, to: int) -> bool {
    forall|k: int| from <= k < to ==> is_digit(#[trigger] s[k])
}

/// The two-digit number at `i`.
pub open spec fn num2(s: Seq<char>, i: int) -> int {
    dig(s, i) * 10 + dig(s, i + 1)
}

/// The four-digit number at `i`.
pub open spec fn num4(s: Seq<char>, i: int) -> int {
    dig(s, i) * 1000 + dig(s, i + 1) * 100 + dig(s, i + 2) * 10 + dig(s, i + 3)
}

/// The instant of a civil date and time, when it exists.
pub open spec fn civil_instant(y: int, m: int, d: int, h: int, mi: int, s: int) -> Option<int> {
    if valid_civil(y, m, d, h, mi, s) {
        Some(civil_to_unix(y, m, d, h, mi, s))
    } else {
        None
    }
}

/// The shape of a DATE value: `YYYYMMDD`.
pub open spec fn is_date_form(v: Seq<char>) -> bool {
    v.len() == 8 && digits_in(v, 0, 8)
}

/// The shape of a DATE-TIME value: `YYYYMMDDTHHMMSS`, optionally followed by `Z`.
pub open spec fn is_date_time_form(v: Seq<char>) -> bool {
    &&& (v.len() == 15 || (v.len() == 16 && v[15] == 'Z'))
    &&& v[8] == 'T'
    &&& digits_in(v, 0, 8)
    &&& digits_in(v, 9, 15)
}

/// Seconds since the epoch of a DATE (midnight UTC) or DATE-TIME value.
pub open spec fn spec_parse_datetime(v: Seq<char>) -> Option<int> {
    if is_date_form(v) {
        civil_instant(num4(v, 0), num2(v, 4), num2(v, 6), 0, 0, 0)
    } else if is_date_time_form(v) {
        civil_instant(num4(v, 0), num2(v, 4), num2(v, 6), num2(v, 9), num2(v, 11), num2(v, 13))
    } else {
        None
    }
}

// ---------------------------------------------------------------------------
// Executable code
// ---------------------------------------------------------------------------

/// Why an iCalendar text could not be read as an event.
#[derive(Clone, Copy, Debug, PartialEq, Eq, Structural)]
pub enum IcalError {
    /// No `BEGIN:VEVENT` line.
    NoEvent,
    /// The VEVENT component is never closed.
    UnterminatedEvent,
    /// The event has no UID property.
    MissingUid,
    /// The event has no DTSTART property.
    MissingStart,
    /// DTSTART is not a DATE or DATE-TIME.
    InvalidStart,
    /// DTEND is present but not a DATE or DATE-TIME.
    InvalidEnd,
    /// A date-time value is not a DATE or DATE-TIME.
    InvalidDateTime,
}

/// The message of an iCalendar error.
pub open spec fn ical_message(e: IcalError) -> Seq<char> {
    match e {
        IcalError::NoEvent => "No VEVENT component found"@,
        IcalError::UnterminatedEvent => "VEVENT component is not terminated"@,
        IcalError::MissingUid => "Missing required property: UID"@,
        IcalError::MissingStart => "Missing required property: DTSTART"@,
        IcalError::InvalidStart => "Invalid DTSTART value"@,
        IcalError::InvalidEnd => "Invalid DTEND value"@,
        IcalError::InvalidDateTime => "Invalid date-time value"@,
    }
}

impl IcalError {
    /// The message of this error.
    pub fn message(&self) -> (r: String)
        ensures
            r@ == ical_message(*self),
    {
        match self {
            IcalError::NoEvent => crate::text::owned("No VEVENT component found"),
            IcalError::UnterminatedEvent => crate::text::owned("VEVENT component is not terminated"),
            IcalError::MissingUid => crate::text::owned("Missing required property: UID"),
            IcalError::MissingStart => crate::text::owned("Missing required property: DTSTART"),
            IcalError::InvalidStart => crate::text::owned("Invalid DTSTART value"),
            IcalError::InvalidEnd => crate::text::owned("Invalid DTEND value"),
            IcalError::InvalidDateTime => crate::text::owned("Invalid date-time value"),
        }
    }
}

/// Parsed iCalendar event.
#[derive(Clone, Debug)]
pub struct ICalEvent {
    /// Event UID (required)
    pub uid: String,
    /// Event summary/title
    pub summary: Option<String>,
    /// Event description
    pub description: Option<String>,
    /// Event location
    pub location: Option<String>,
    /// Start time
    pub start_time: Timestamp,
    /// End time
    pub end_time: Option<Timestamp>,
    /// Recurrence rule (kept as text)
    pub rrule: Option<String>,
}

/// The characters of an optional string.
pub open spec fn opt_view(o: Option<String>) -> Option<Seq<char>> {
    match o {
        Some(s) => Some(s@),
        None => None,
    }
}

/// An event with its text fields as character sequences.
pub struct ICalEventView {
    pub uid: Seq<char>,
    pub summary: Option<Seq<char>>,
    pub description: Option<Seq<char>>,
    pub location: Option<Seq<char>>,
    pub start_time: Timestamp,
    pub end_time: Option<Timestamp>,
    pub rrule: Option<Seq<char>>,
}

impl View for ICalEvent {
    type V = ICalEventView;

    open spec fn view(&self) -> ICalEventView {
        ICalEventView {
            uid: self.uid@,
            summary: opt_view(self.summary),
            description: opt_view(self.description),
            location: opt_view(self.location),
            start_time: self.start_time,
            end_time: self.end_time,
            rrule: opt_view(self.rrule),
        }
    }
}

/// The instant of a DATE or DATE-TIME value, on the second.
pub open spec fn instant_of(v: Seq<char>) -> Option<Timestamp> {
    match spec_parse_datetime(v) {
        Some(t) => Some(Timestamp { seconds: t as i64, nanos: 0 }),
        None => None,
    }
}

/// What an iCalendar text reads as: the first VEVENT component, its UID and
/// DTSTART required, DTEND optional but, when present, a valid date; a
/// DTSTART or DTEND with a TZID parameter is refused as invalid.
pub open spec fn spec_parse_event(data: Seq<char>) -> Result<ICalEventView, IcalError> {
    let lines = content_lines(data);
    match first_line_from(lines, "BEGIN:VEVENT"@, 0) {
        None => Err(IcalError::NoEvent),
        Some(b) => match component_lines(lines, b + 1, 0) {
            None => Err(IcalError::UnterminatedEvent),
            Some(props) => match find_property(props, "UID"@) {
                None => Err(IcalError::MissingUid),
                Some(uid) => match find_property(props, "DTSTART"@) {
                    None => Err(IcalError::MissingStart),
                    Some(ds) => match (if tzid_qualified(props, "DTSTART"@) { None } else { instant_of(ds) }) {
                        None => Err(IcalError::InvalidStart),
                        Some(start) => {
                            let end = match find_property(props, "DTEND"@) {
                                None => Ok(None),
                                Some(de) => match (if tzid_qualified(props, "DTEND"@) { None } else { instant_of(de) }) {
                                    None => Err(IcalError::InvalidEnd),
                                    Some(t) => Ok(Some(t)),
                                },
                            };
                            match end {
                                Err(e) => Err(e),
                                Ok(end_time) => Ok(
                                    ICalEventView {
                                        uid,
                                        summary: find_property(props, "SUMMARY"@),
                                        description: find_property(props, "DESCRIPTION"@),
                                        location: find_property(props, "LOCATION"@),
                                        start_time: start,
                                        end_time,
                                        rrule: find_property(props, "RRULE"@),
                                    },
                                ),
                            }
                        },
                    },
                },
            },
        },
    }
}

/// Removes folded line breaks.
fn unfold(v: &Vec<char>) -> (r: Vec<char>)
    ensures
        r@ == unfold_spec(v@),
{
    let n = v.len();
    let mut r: Vec<char> = Vec::new();
    let mut i: usize = 0;
    assert(v@.skip(0) =~= v@);
    while i < n
        invariant
            n == v.len(),
            i <= n,
            r@ + unfold_spec(v@.skip(i as int)) == unfold_spec(v@),
        decreases n - i,
    {
        let ghost rest = v@.skip(i as int);
        if n - i > 2 && v[i] == '\r' && v[i + 1] == '\n' && (v[i + 2] == ' ' || v[i + 2] == '\t') {
            assert(rest.skip(3) =~= v@.skip(i + 3));
            i = i + 3;
        } else if n - i > 1 && v[i] == '\n' && (v[i + 1] == ' ' || v[i + 1] == '\t') {
            assert(rest.skip(2) =~= v@.skip(i + 2));
            i = i + 2;
        } else {
            let ghost before = r@;
            r.push(v[i]);
            assert(rest.skip(1) =~= v@.skip(i + 1));
            assert(r@ + unfold_spec(v@.skip(i + 1)) =~= before + (seq![rest[0]] + unfold_spec(
                rest.skip(1),
            )));
            i = i + 1;
        }
    }
    assert(v@.skip(n as int) =~= Seq::<char>::empty());
    assert(r@ + Seq::<char>::empty() =~= r@);
    r
}

/// `newline_index` is the position of the first line feed, or the length.
proof fn lemma_newline_index(s: Seq<char>, k: nat)
    requires
        k <= s.len(),
        forall|j: int| 0 <= j < k ==> s[j] != '\n',
        k == s.len() || s[k as int] == '\n',
    ensures
        newline_index(s) == k,
    decreases k,
{
    if k > 0 {
        lemma_newline_index(s.skip(1), (k - 1) as nat);
    }
}

/// The view of a vector of lines.
pub open spec fn lines_view(v: Seq<Vec<char>>) -> Seq<Seq<char>> {
    v.map_values(|l: Vec<char>| l@)
}

/// The line without its trailing carriage return.
fn strip_cr_vec(l: Vec<char>) -> (r: Vec<char>)
    ensures
        r@ == strip_cr(l@),
{
    let mut l = l;
    if l.len() > 0 && l[l.len() - 1] == '\r' {
        l.pop();
    }
    l
}

/// Splits a text into its lines.
fn split_lines_vec(v: &Vec<char>) -> (r: Vec<Vec<char>>)
    ensures
        lines_view(r@) == split_lines(v@),
{
    let n = v.len();
    let mut out: Vec<Vec<char>> = Vec::new();
    let mut start: usize = 0;
    let mut i: usize = 0;
    assert(v@.skip(0) =~= v@);
    assert(lines_view(out@) + split_lines(v@) =~= split_lines(v@));
    while i < n
        invariant
            n == v.len(),
            start <= i <= n,
            forall|j: int| start <= j < i ==> v@[j] != '\n',
            lines_view(out@) + split_lines(v@.skip(start as int)) == split_lines(v@),
        decreases n - i,
    {
        if v[i] == '\n' {
            let ghost rest = v@.skip(start as int);
            proof {
                lemma_newline_index(rest, (i - start) as nat);
            }
            let line = strip_cr_vec(slice_chars(v.as_slice(), start, i));
            assert(rest.take((i - start) as int) =~= v@.subrange(start as int, i as int));
            assert(rest.skip(i - start + 1) =~= v@.skip(i + 1));
            let ghost before = out@;
            out.push(line);
            assert(lines_view(out@) =~= lines_view(before).push(line@));
            assert(lines_view(out@) + split_lines(v@.skip(i + 1)) =~= lines_view(before) + (seq![
                line@,
            ] + split_lines(v@.skip(i + 1))));
            start = i + 1;
        }
        i = i + 1;
    }
    let ghost rest = v@.skip(start as int);
    proof {
        lemma_newline_index(rest, (n - start) as nat);
    }
    let line = strip_cr_vec(slice_chars(v.as_slice(), start, n));
    assert(rest =~= v@.subrange(start as int, n as int));
    let ghost before = out@;
    out.push(line);
    assert(lines_view(out@) =~= lines_view(before).push(line@));
    assert(lines_view(out@) =~= lines_view(before) + seq![line@]);
    out
}

/// The content lines of an iCalendar text.
fn content_lines_of(data: &str) -> (r: Vec<Vec<char>>)
    ensures
        lines_view(r@) == content_lines(data@),
{
    let v = chars_of(data);
    let u = unfold(&v);
    split_lines_vec(&u)
}

/// The first unquoted `:` at or after `from`.
fn find_value_colon(l: &[char], from: usize) -> (r: Option<usize>)
    ensures
        r matches Some(c) ==> value_colon(l@, from as nat, false) == Some(c as nat) && from <= c < l.len(),
        r is None ==> value_colon(l@, from as nat, false) is None,
{
    let mut i = from;
    let mut quoted = false;
    while i < l.len()
        invariant
            from <= i,
            value_colon(l@, i as nat, quoted) == value_colon(l@, from as nat, false),
        decreases l.len() - i,
    {
        if l[i] == '"' {
            quoted = !quoted;
        } else if l[i] == ':' && !quoted {
            return Some(i);
        }
        i = i + 1;
    }
    None
}

/// The raw value of property `name` on this line.
fn line_prop_value(line: &[char], name: &[char]) -> (r: Option<Vec<char>>)
    ensures
        match r {
            Some(v) => prop_value(line@, name@) == Some(v@),
            None => prop_value(line@, name@) is None,
        },
{
    if name.len() < line.len() && has_prefix(line, name) && (line[name.len()] == ':'
        || line[name.len()] == ';') {
        match find_value_colon(line, name.len()) {
            Some(c) => {
                let v = slice_chars(line, c + 1, line.len());
                assert(v@ =~= line@.skip(c + 1));
                Some(v)
            },
            None => None,
        }
    } else {
        None
    }
}

/// Unescapes a TEXT value.
fn unescape(s: &[char]) -> (r: Vec<char>)
    ensures
        r@ == unescape_spec(s@),
{
    let n = s.len();
    let mut r: Vec<char> = Vec::new();
    let mut i: usize = 0;
    assert(s@.skip(0) =~= s@);
    while i < n
        invariant
            n == s.len(),
            i <= n,
            r@ + unescape_spec(s@.skip(i as int)) == unescape_spec(s@),
        decreases n - i,
    {
        let ghost rest = s@.skip(i as int);
        let ghost before = r@;
        if s[i] == '\\' && i + 1 < n && (s[i + 1] == 'n' || s[i + 1] == 'N') {
            r.push('\n');
            assert(rest.skip(2) =~= s@.skip(i + 2));
            assert(r@ + unescape_spec(s@.skip(i + 2)) =~= before + (seq!['\n'] + unescape_spec(
                rest.skip(2),
            )));
            i = i + 2;
        } else if s[i] == '\\' && i + 1 < n && (s[i + 1] == '\\' || s[i + 1] == ';' || s[i + 1]
            == ',') {
            r.push(s[i + 1]);
            assert(rest.skip(2) =~= s@.skip(i + 2));
            assert(r@ + unescape_spec(s@.skip(i + 2)) =~= before + (seq![rest[1]] + unescape_spec(
                rest.skip(2),
            )));
            i = i + 2;
        } else {
            r.push(s[i]);
            assert(rest.skip(1) =~= s@.skip(i + 1));
            assert(r@ + unescape_spec(s@.skip(i + 1)) =~= before + (seq![rest[0]] + unescape_spec(
                rest.skip(1),
            )));
            i = i + 1;
        }
    }
    assert(s@.skip(n as int) =~= Seq::<char>::empty());
    assert(r@ + Seq::<char>::empty() =~= r@);
    r
}

/// The unescaped value of property `name` on the first line that carries it.
fn find_property_vec(lines: &Vec<Vec<char>>, name: &[char]) -> (r: Option<Vec<char>>)
    ensures
        match r {
            Some(v) => find_property(lines_view(lines@), name@) == Some(v@),
            None => find_property(lines_view(lines@), name@) is None,
        },
{
    let ghost ls = lines_view(lines@);
    let mut i: usize = 0;
    while i < lines.len()
        invariant
            i <= lines.len(),
            ls == lines_view(lines@),
            find_property_from(ls, name@, i as nat) == find_property(ls, name@),
        decreases lines.len() - i,
    {
        assert(ls[i as int] == lines@[i as int]@);
        match line_prop_value(lines[i].as_slice(), name) {
            Some(v) => {
                let u = unescape(v.as_slice());
                return Some(u);
            },
            None => {},
        }
        i = i + 1;
    }
    None
}

/// The parameters of property `name` on this line.
fn line_prop_params(line: &[char], name: &[char]) -> (r: Option<Vec<char>>)
    ensures
        match r {
            Some(v) => prop_params(line@, name@) == Some(v@),
            None => prop_params(line@, name@) is None,
        },
{
    if name.len() < line.len() && has_prefix(line, name) && (line[name.len()] == ':'
        || line[name.len()] == ';') {
        match find_value_colon(line, name.len()) {
            Some(c) => Some(slice_chars(line, name.len(), c)),
            None => None,
        }
    } else {
        None
    }
}

/// Whether the parameters hold a `TZID` parameter.
fn params_have_tzid(p: &[char]) -> (r: bool)
    ensures
        r == has_tzid(p@),
{
    let mut k: usize = 0;
    while k < p.len()
        invariant
            forall|j: int|
                0 <= j < k ==> !(j + 6 <= p@.len() && #[trigger] p@[j] == ';' && p@[j + 1] == 'T'
                    && p@[j + 2] == 'Z' && p@[j + 3] == 'I' && p@[j + 4] == 'D' && p@[j + 5] == '='),
        decreases p.len() - k,
    {
        if p.len() - k >= 6 && p[k] == ';' && p[k + 1] == 'T' && p[k + 2] == 'Z' && p[k + 3] == 'I'
            && p[k + 4] == 'D' && p[k + 5] == '=' {
            return true;
        }
        k = k + 1;
    }
    false
}

/// Whether the first line carrying property `name` gives it a `TZID`
/// parameter.
fn property_has_tzid(lines: &Vec<Vec<char>>, name: &str) -> (r: bool)
    ensures
        r == tzid_qualified(lines_view(lines@), name@),
{
    let n = chars_of(name);
    let ghost ls = lines_view(lines@);
    let mut i: usize = 0;
    while i < lines.len()
        invariant
            i <= lines.len(),
            ls == lines_view(lines@),
            n@ == name@,
            property_params_from(ls, name@, i as nat) == property_params_from(ls, name@, 0),
        decreases lines.len() - i,
    {
        assert(ls[i as int] == lines@[i as int]@);
        match line_prop_params(lines[i].as_slice(), n.as_slice()) {
            Some(p) => {
                return params_have_tzid(p.as_slice());
            },
            None => {},
        }
        i = i + 1;
    }
    false
}

/// Extract a property value from iCalendar data: the unescaped value of the
/// first content line of that property, after line unfolding.
pub fn extract_property(data: &str, property: &str) -> (r: Option<String>)
    ensures
        opt_view(r) == spec_extract_property(data@, property@),
{
    let lines = content_lines_of(data);
    let name = chars_of(property);
    match find_property_vec(&lines, name.as_slice()) {
        Some(v) => Some(string_of(v.as_slice())),
        None => None,
    }
}


/// `prepend_lines` composes: putting `acc` before `[l]` before `x` is
/// putting `acc` followed by `l` before `x`.
proof fn lemma_prepend_push(acc: Seq<Seq<char>>, l: Seq<char>, x: Option<Seq<Seq<char>>>)
    ensures
        prepend_lines(acc, prepend_lines(seq![l], x)) == prepend_lines(acc.push(l), x),
{
    match x {
        Some(b) => {
            assert(acc + (seq![l] + b) =~= acc.push(l) + b);
        },
        None => {},
    }
}

/// The index of the first line, from `from` on, equal to `target`.
fn first_line_vec(lines: &Vec<Vec<char>>, target: &[char], from: usize) -> (r: Option<usize>)
    ensures
        r matches Some(i) ==> first_line_from(lines_view(lines@), target@, from as nat) == Some(
            i as nat,
        ) && i < lines.len(),
        r is None ==> first_line_from(lines_view(lines@), target@, from as nat) is None,
{
    let ghost ls = lines_view(lines@);
    let mut i = from;
    while i < lines.len()
        invariant
            ls == lines_view(lines@),
            first_line_from(ls, target@, i as nat) == first_line_from(ls, target@, from as nat),
        decreases lines.len() - i,
    {
        assert(ls[i as int] == lines@[i as int]@);
        if crate::text::chars_eq(lines[i].as_slice(), target) {
            return Some(i);
        }
        i = i + 1;
    }
    None
}

/// The own lines of the component whose body starts at line `from`.
fn component_lines_vec(lines: &Vec<Vec<char>>, from: usize) -> (r: Option<Vec<Vec<char>>>)
    ensures
        r matches Some(b) ==> component_lines(lines_view(lines@), from as nat, 0) == Some(
            lines_view(b@),
        ),
        r is None ==> component_lines(lines_view(lines@), from as nat, 0) is None,
{
    let ghost ls = lines_view(lines@);
    let begin = chars_of("BEGIN:");
    let end = chars_of("END:");
    let mut acc: Vec<Vec<char>> = Vec::new();
    let mut depth: usize = 0;
    let mut i = from;
    assert(lines_view(acc@) =~= Seq::<Seq<char>>::empty());
    proof {
        match component_lines(ls, from as nat, 0) {
            Some(b) => {
                assert(Seq::<Seq<char>>::empty() + b =~= b);
            },
            None => {},
        }
    }
    while i < lines.len()
        invariant
            ls == lines_view(lines@),
            begin@ == "BEGIN:"@,
            end@ == "END:"@,
            depth <= i,
            component_lines(ls, from as nat, 0) == prepend_lines(
                lines_view(acc@),
                component_lines(ls, i as nat, depth as nat),
            ),
        decreases lines.len() - i,
    {
        let l = &lines[i];
        assert(ls[i as int] == l@);
        if has_prefix(l.as_slice(), begin.as_slice()) {
            depth = depth + 1;
        } else if has_prefix(l.as_slice(), end.as_slice()) {
            if depth == 0 {
                assert(lines_view(acc@) + Seq::<Seq<char>>::empty() =~= lines_view(acc@));
                return Some(acc);
            }
            depth = depth - 1;
        } else if depth == 0 {
            let copy = slice_chars(l.as_slice(), 0, l.len());
            assert(copy@ =~= l@);
            let ghost before = acc@;
            proof {
                lemma_prepend_push(lines_view(before), l@, component_lines(ls, (i + 1) as nat, 0));
            }
            acc.push(copy);
            assert(lines_view(acc@) =~= lines_view(before).push(l@));
        }
        i = i + 1;
    }
    None
}

/// The value of the digit at `i`.
fn digit_at(v: &[char], i: usize) -> (r: u32)
    requires
        i < v.len(),
        is_digit(v@[i as int]),
    ensures
        r as int == dig(v@, i as int),
        r <= 9,
{
    (v[i] as u32) - ('0' as u32)
}

/// Whether all characters in `[from, to)` are digits.
fn all_digits(v: &[char], from: usize, to: usize) -> (r: bool)
    requires
        from <= to <= v.len(),
    ensures
        r == digits_in(v@, from as int, to as int),
{
    let mut k = from;
    while k < to
        invariant
            from <= k <= to <= v.len(),
            digits_in(v@, from as int, k as int),
        decreases to - k,
    {
        if !('0' <= v[k] && v[k] <= '9') {
            return false;
        }
        k = k + 1;
    }
    true
}

/// The instant of a civil date and time read from digit fields.
fn civil_from_fields(v: &[char], with_time: bool) -> (r: Option<i64>)
    requires
        digits_in(v@, 0, 8),
        v.len() >= 8,
        with_time ==> v.len() >= 15 && digits_in(v@, 9, 15),
    ensures
        r matches Some(t) ==> t as int == (if with_time {
            civil_to_unix(num4(v@, 0), num2(v@, 4), num2(v@, 6), num2(v@, 9), num2(v@, 11), num2(v@, 13))
        } else {
            civil_to_unix(num4(v@, 0), num2(v@, 4), num2(v@, 6), 0, 0, 0)
        }),
        r is Some <==> (if with_time {
            valid_civil(num4(v@, 0), num2(v@, 4), num2(v@, 6), num2(v@, 9), num2(v@, 11), num2(v@, 13))
        } else {
            valid_civil(num4(v@, 0), num2(v@, 4), num2(v@, 6), 0, 0, 0)
        }),
{
    let year = digit_at(v, 0) * 1000 + digit_at(v, 1) * 100 + digit_at(v, 2) * 10 + digit_at(v, 3);
    let month = digit_at(v, 4) * 10 + digit_at(v, 5);
    let day = digit_at(v, 6) * 10 + digit_at(v, 7);
    let (hour, minute, second) = if with_time {
        (
            digit_at(v, 9) * 10 + digit_at(v, 10),
            digit_at(v, 11) * 10 + digit_at(v, 12),
            digit_at(v, 13) * 10 + digit_at(v, 14),
        )
    } else {
        (0, 0, 0)
    };
    utc_from_civil(year as i32, month, day, hour, minute, second)
}

/// Parse an iCalendar DATE (`YYYYMMDD`, read as midnight UTC) or DATE-TIME
/// (`YYYYMMDDTHHMMSS`, optionally with a trailing `Z`) value.
pub fn parse_datetime(value: &str) -> (r: Result<Timestamp, IcalError>)
    ensures
        r matches Ok(t) ==> instant_of(value@) == Some(t),
        r matches Err(e) ==> instant_of(value@) is None && e == IcalError::InvalidDateTime,
{
    let v = chars_of(value);
    let n = v.len();
    let secs = if n == 8 && all_digits(v.as_slice(), 0, 8) {
        civil_from_fields(v.as_slice(), false)
    } else if (n == 15 || (n == 16 && v[15] == 'Z')) && v[8] == 'T' && all_digits(
        v.as_slice(),
        0,
        8,
    ) && all_digits(v.as_slice(), 9, 15) {
        civil_from_fields(v.as_slice(), true)
    } else {
        None
    };
    match secs {
        Some(t) => Ok(Timestamp::from_seconds(t)),
        None => Err(IcalError::InvalidDateTime),
    }
}

/// The instant of a property value, with the error to report when it is
/// not a date.
fn instant_of_vec(v: &Vec<char>, err: IcalError) -> (r: Result<Timestamp, IcalError>)
    ensures
        r matches Ok(t) ==> instant_of(v@) == Some(t),
        r matches Err(e) ==> instant_of(v@) is None && e == err,
{
    let s = string_of(v.as_slice());
    match parse_datetime(s.as_str()) {
        Ok(t) => Ok(t),
        Err(_) => Err(err),
    }
}

/// An optional text value as an optional `String`.
fn opt_string(o: Option<Vec<char>>) -> (r: Option<String>)
    ensures
        opt_view(r) == (match o {
            Some(v) => Some(v@),
            None => None::<Seq<char>>,
        }),
{
    match o {
        Some(v) => Some(string_of(v.as_slice())),
        None => None,
    }
}

/// The value of property `name` among the event's own lines.
fn event_property(props: &Vec<Vec<char>>, name: &str) -> (r: Option<Vec<char>>)
    ensures
        match r {
            Some(v) => find_property(lines_view(props@), name@) == Some(v@),
            None => find_property(lines_view(props@), name@) is None,
        },
{
    let n = chars_of(name);
    find_property_vec(props, n.as_slice())
}

/// Parse an iCalendar VEVENT component: the first VEVENT of the text, with
/// its UID and DTSTART (required), DTEND (optional, but a date when
/// present), SUMMARY, DESCRIPTION, LOCATION and RRULE.
pub fn parse_event(ical_data: &str) -> (r: Result<ICalEvent, IcalError>)
    ensures
        match r {
            Ok(e) => spec_parse_event(ical_data@) == Ok::<ICalEventView, IcalError>(e@),
            Err(e) => spec_parse_event(ical_data@) == Err::<ICalEventView, IcalError>(e),
        },
{
    let lines = content_lines_of(ical_data);
    let begin = chars_of("BEGIN:VEVENT");
    let b = match first_line_vec(&lines, begin.as_slice(), 0) {
        Some(b) => b,
        None => {
            return Err(IcalError::NoEvent);
        },
    };
    let props = match component_lines_vec(&lines, b + 1) {
        Some(p) => p,
        None => {
            return Err(IcalError::UnterminatedEvent);
        },
    };
    let uid = match event_property(&props, "UID") {
        Some(u) => u,
        None => {
            return Err(IcalError::MissingUid);
        },
    };
    let ds = match event_property(&props, "DTSTART") {
        Some(d) => d,
        None => {
            return Err(IcalError::MissingStart);
        },
    };
    if property_has_tzid(&props, "DTSTART") {
        return Err(IcalError::InvalidStart);
    }
    let start_time = match instant_of_vec(&ds, IcalError::InvalidStart) {
        Ok(t) => t,
        Err(e) => {
            return Err(e);
        },
    };
    let end_time = match event_property(&props, "DTEND") {
        None => None,
        Some(de) => {
            if property_has_tzid(&props, "DTEND") {
                return Err(IcalError::InvalidEnd);
            }
            match instant_of_vec(&de, IcalError::InvalidEnd) {
                Ok(t) => Some(t),
                Err(e) => {
                    return Err(e);
                },
            }
        },
    };
    let summary = opt_string(event_property(&props, "SUMMARY"));
    let description = opt_string(event_property(&props, "DESCRIPTION"));
    let location = opt_string(event_property(&props, "LOCATION"));
    let rrule = opt_string(event_property(&props, "RRULE"));
    let ev = ICalEvent {
        uid: string_of(uid.as_slice()),
        summary,
        description,
        location,
        start_time,
        end_time,
        rrule,
    };
    Ok(ev)
}

// ---------------------------------------------------------------------------
// Laws of date-times
// ---------------------------------------------------------------------------

/// The numeral of a decimal digit.
pub open spec fn numeral(d: int) -> char {
    if d == 0 {
        '0'
    } else if d == 1 {
        '1'
    } else if d == 2 {
        '2'
    } else if d == 3 {
        '3'
    } else if d == 4 {
        '4'
    } else if d == 5 {
        '5'
    } else if d == 6 {
        '6'
    } else if d == 7 {
        '7'
    } else if d == 8 {
        '8'
    } else {
        '9'
    }
}

/// The text `YYYYMMDD` of a date, zero-padded.
pub open spec fn date_text(y: int, mo: int, d: int) -> Seq<char> {
    seq![
        numeral(y / 1000),
        numeral((y / 100) % 10),
        numeral((y / 10) % 10),
        numeral(y % 10),
        numeral(mo / 10),
        numeral(mo % 10),
        numeral(d / 10),
        numeral(d % 10),
    ]
}

/// The text `YYYYMMDDTHHMMSS` of a date and time of day, zero-padded.
pub open spec fn date_time_text(y: int, mo: int, d: int, h: int, mi: int, s: int) -> Seq<char> {
    date_text(y, mo, d) + seq![
        'T',
        numeral(h / 10),
        numeral(h % 10),
        numeral(mi / 10),
        numeral(mi % 10),
        numeral(s / 10),
        numeral(s % 10),
    ]
}

/// A numeral is a digit with its value.
proof fn lemma_numeral(d: int)
    requires
        0 <= d < 10,
    ensures
        is_digit(numeral(d)),
        numeral(d) as int - '0' as int == d,
{
}

/// The digits of a number below 10000, and of one below 100.
proof fn lemma_digits(n: int)
    requires
        0 <= n <= 9999,
    ensures
        0 <= n / 1000 < 10,
        0 <= (n / 100) % 10 < 10,
        0 <= (n / 10) % 10 < 10,
        0 <= n % 10 < 10,
        (n / 1000) * 1000 + ((n / 100) % 10) * 100 + ((n / 10) % 10) * 10 + n % 10 == n,
        n < 100 ==> 0 <= n / 10 < 10 && (n / 10) * 10 + n % 10 == n,
{
    assert((n / 1000) * 1000 + ((n / 100) % 10) * 100 + ((n / 10) % 10) * 10 + n % 10 == n) by (nonlinear_arith)
        requires
            0 <= n <= 9999,
    ;
    assert(n < 100 ==> (n / 10) * 10 + n % 10 == n) by (nonlinear_arith)
        requires
            0 <= n,
    ;
    assert(0 <= n / 1000 < 10) by (nonlinear_arith)
        requires
            0 <= n <= 9999,
    ;
    assert(n < 100 ==> 0 <= n / 10 < 10) by (nonlinear_arith)
        requires
            0 <= n,
    ;
}

/// The zero-padded text of a date reads as its year, month and day.
proof fn lemma_date_text(y: int, mo: int, d: int)
    requires
        0 <= y <= 9999,
        1 <= mo <= 12,
        1 <= d <= 31,
    ensures
        date_text(y, mo, d).len() == 8,
        digits_in(date_text(y, mo, d), 0, 8),
        num4(date_text(y, mo, d), 0) == y,
        num2(date_text(y, mo, d), 4) == mo,
        num2(date_text(y, mo, d), 6) == d,
{
    let v = date_text(y, mo, d);
    lemma_digits(y);
    lemma_digits(mo);
    lemma_digits(d);
    lemma_numeral(y / 1000);
    lemma_numeral((y / 100) % 10);
    lemma_numeral((y / 10) % 10);
    lemma_numeral(y % 10);
    lemma_numeral(mo / 10);
    lemma_numeral(mo % 10);
    lemma_numeral(d / 10);
    lemma_numeral(d % 10);
    assert forall|k: int| 0 <= k < 8 implies is_digit(#[trigger] v[k]) by {
        if k == 0 {
        } else if k == 1 {
        } else if k == 2 {
        } else if k == 3 {
        } else if k == 4 {
        } else if k == 5 {
        } else if k == 6 {
        } else {
        }
    }
}

/// A DATE-TIME, with or without the `Z` of UTC, reads as the instant of its
/// fields, whatever they are: the year from its first four digits, then
/// month, day, hour, minute and second from the two-digit groups in that
/// order; and a DATE reads as the midnight that starts its day.
pub proof fn law_date_time_fields(y: int, mo: int, d: int, h: int, mi: int, s: int)
    requires
        0 <= y <= 9999,
        valid_civil(y, mo, d, h, mi, s),
    ensures
        instant_of(date_time_text(y, mo, d, h, mi, s)) matches Some(t) && t.seconds == civil_to_unix(
            y,
            mo,
            d,
            h,
            mi,
            s,
        ) && t.nanos == 0,
        instant_of(date_time_text(y, mo, d, h, mi, s).push('Z')) matches Some(t) && t.seconds
            == civil_to_unix(y, mo, d, h, mi, s) && t.nanos == 0,
        instant_of(date_text(y, mo, d)) matches Some(t) && t.seconds == civil_to_unix(y, mo, d, 0, 0, 0)
            && t.nanos == 0,
{
    lemma_date_text(y, mo, d);
    lemma_digits(h);
    lemma_digits(mi);
    lemma_digits(s);
    lemma_numeral(h / 10);
    lemma_numeral(h % 10);
    lemma_numeral(mi / 10);
    lemma_numeral(mi % 10);
    lemma_numeral(s / 10);
    lemma_numeral(s % 10);
    let dt = date_text(y, mo, d);
    let v = date_time_text(y, mo, d, h, mi, s);
    let z = v.push('Z');
    assert(v.len() == 15);
    assert forall|k: int| 0 <= k < 8 implies v[k] == dt[k] && z[k] == dt[k] by {}
    assert(v[8] == 'T' && z[8] == 'T');
    assert(v[9] == numeral(h / 10) && v[10] == numeral(h % 10));
    assert(v[11] == numeral(mi / 10) && v[12] == numeral(mi % 10));
    assert(v[13] == numeral(s / 10) && v[14] == numeral(s % 10));
    assert forall|k: int| 0 <= k < 15 implies z[k] == v[k] by {}
    assert(digits_in(v, 0, 8)) by {
        assert forall|k: int| 0 <= k < 8 implies is_digit(#[trigger] v[k]) by {
            assert(is_digit(dt[k]));
        }
    }
    assert(digits_in(z, 0, 8)) by {
        assert forall|k: int| 0 <= k < 8 implies is_digit(#[trigger] z[k]) by {
            assert(is_digit(dt[k]));
        }
    }
    assert(digits_in(v, 9, 15));
    assert(digits_in(z, 9, 15)) by {
        assert forall|k: int| 9 <= k < 15 implies is_digit(#[trigger] z[k]) by {
            assert(z[k] == v[k]);
        }
    }
    assert(num4(v, 0) == y && num4(z, 0) == y) by {
        assert(num4(dt, 0) == y);
    }
    assert(num2(v, 4) == mo && num2(z, 4) == mo);
    assert(num2(v, 6) == d && num2(z, 6) == d);
    assert(num2(v, 9) == h && num2(z, 9) == h);
    assert(num2(v, 11) == mi && num2(z, 11) == mi);
    assert(num2(v, 13) == s && num2(z, 13) == s);
    assert(!is_date_form(v) && !is_date_form(z));
    assert(is_date_time_form(v) && is_date_time_form(z));
    assert(is_date_form(dt));
}


/// A digit is the numeral of its value.
proof fn lemma_digit_numeral(c: char)
    requires
        is_digit(c),
    ensures
        numeral(c as int - '0' as int) == c,
{
    let k = c as int - '0' as int;
    if k == 0 {
    } else if k == 1 {
    } else if k == 2 {
    } else if k == 3 {
    } else if k == 4 {
    } else if k == 5 {
    } else if k == 6 {
    } else if k == 7 {
    } else if k == 8 {
    } else {
    }
}

/// The digits of a number written with four (or two) given digits are those digits.
proof fn lemma_undigits(a: int, b: int, c: int, e: int)
    requires
        0 <= a < 10,
        0 <= b < 10,
        0 <= c < 10,
        0 <= e < 10,
    ensures
        (a * 1000 + b * 100 + c * 10 + e) / 1000 == a,
        ((a * 1000 + b * 100 + c * 10 + e) / 100) % 10 == b,
        ((a * 1000 + b * 100 + c * 10 + e) / 10) % 10 == c,
        (a * 1000 + b * 100 + c * 10 + e) % 10 == e,
        (a * 10 + b) / 10 == a,
        (a * 10 + b) % 10 == b,
{
    assert((a * 1000 + b * 100 + c * 10 + e) / 1000 == a) by (nonlinear_arith)
        requires
            0 <= a < 10,
            0 <= b < 10,
            0 <= c < 10,
            0 <= e < 10,
    ;
    assert((a * 1000 + b * 100 + c * 10 + e) / 100 == a * 10 + b) by (nonlinear_arith)
        requires
            0 <= a < 10,
            0 <= b < 10,
            0 <= c < 10,
            0 <= e < 10,
    ;
    assert((a * 1000 + b * 100 + c * 10 + e) / 10 == a * 100 + b * 10 + c) by (nonlinear_arith)
        requires
            0 <= a < 10,
            0 <= b < 10,
            0 <= c < 10,
            0 <= e < 10,
    ;
    assert((a * 10 + b) / 10 == a) by (nonlinear_arith)
        requires
            0 <= a < 10,
            0 <= b < 10,
    ;
}

/// Only such renderings read as instants: a text that reads as an instant is
/// the zero-padded `YYYYMMDD`, `YYYYMMDDTHHMMSS` or `YYYYMMDDTHHMMSSZ` of an
/// existing date and time of day, and reads as that date and time.
pub proof fn law_only_renderings_read(v: Seq<char>)
    requires
        instant_of(v) is Some,
    ensures
        exists|y: int, mo: int, d: int, h: int, mi: int, s: int|
            #![trigger valid_civil(y, mo, d, h, mi, s)]
            {
                &&& 0 <= y <= 9999
                &&& valid_civil(y, mo, d, h, mi, s)
                &&& instant_of(v) matches Some(t) && t.seconds == civil_to_unix(y, mo, d, h, mi, s)
                    && t.nanos == 0
                &&& ((v == date_text(y, mo, d) && h == 0 && mi == 0 && s == 0) || v == date_time_text(
                    y,
                    mo,
                    d,
                    h,
                    mi,
                    s,
                ) || v == date_time_text(y, mo, d, h, mi, s).push('Z'))
            },
{
    assert(digits_in(v, 0, 8));
    lemma_digit_numeral(v[0]);
    lemma_digit_numeral(v[1]);
    lemma_digit_numeral(v[2]);
    lemma_digit_numeral(v[3]);
    lemma_digit_numeral(v[4]);
    lemma_digit_numeral(v[5]);
    lemma_digit_numeral(v[6]);
    lemma_digit_numeral(v[7]);
    lemma_undigits(dig(v, 0), dig(v, 1), dig(v, 2), dig(v, 3));
    lemma_undigits(dig(v, 4), dig(v, 5), 0, 0);
    lemma_undigits(dig(v, 6), dig(v, 7), 0, 0);
    let y = num4(v, 0);
    let mo = num2(v, 4);
    let d = num2(v, 6);
    if is_date_form(v) {
        assert(valid_civil(y, mo, d, 0, 0, 0));
        assert(v =~= date_text(y, mo, d));
    } else {
        assert(is_date_time_form(v));
        lemma_digit_numeral(v[9]);
        lemma_digit_numeral(v[10]);
        lemma_digit_numeral(v[11]);
        lemma_digit_numeral(v[12]);
        lemma_digit_numeral(v[13]);
        lemma_digit_numeral(v[14]);
        lemma_undigits(dig(v, 9), dig(v, 10), 0, 0);
        lemma_undigits(dig(v, 11), dig(v, 12), 0, 0);
        lemma_undigits(dig(v, 13), dig(v, 14), 0, 0);
        let h = num2(v, 9);
        let mi = num2(v, 11);
        let s = num2(v, 13);
        assert(valid_civil(y, mo, d, h, mi, s));
        let r = date_time_text(y, mo, d, h, mi, s);
        if v.len() == 15 {
            assert(v =~= r);
        } else {
            assert(v =~= r.push('Z'));
        }
    }
}

} // verus!
