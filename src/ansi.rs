//! Decoding of terminal control sequences: stripping them for plain-text
//! contexts and splitting a line into styled segments.

use vstd::prelude::*;
use vstd::string::StrSliceExecFns;
use vstd::string::StringExecFns;

verus! {

/// The single-character escape introducer.
pub const ESC: char = '\u{1b}';

/// The single-character C1 control sequence introducer.
pub const CSI: char = '\u{9b}';

/// Parameter (`0x30..=0x3f`) or intermediate (`0x20..=0x2f`) character.
pub open spec fn is_body_char(c: char) -> bool {
    0x20 <= (c as u32) && (c as u32) <= 0x3f
}

/// Parameter character of a control sequence.
pub open spec fn is_param_char(c: char) -> bool {
    0x30 <= (c as u32) && (c as u32) <= 0x3f
}

/// Final character of a control sequence.
pub open spec fn is_final_char(c: char) -> bool {
    0x40 <= (c as u32) && (c as u32) <= 0x7e
}

/// Index just past the run of parameter and intermediate characters that
/// starts at `j`.
pub open spec fn body_end(s: Seq<char>, j: int) -> int
    decreases s.len() - j,
{
    if 0 <= j < s.len() && is_body_char(s[j]) {
        body_end(s, j + 1)
    } else {
        j
    }
}

/// Index just past a control sequence whose body starts at `j`: the body,
/// then its final character when one follows.
pub open spec fn sequence_end(s: Seq<char>, j: int) -> int {
    let k = body_end(s, j);
    if 0 <= k < s.len() && is_final_char(s[k]) {
        k + 1
    } else {
        k
    }
}

pub proof fn lemma_body_end_bounds(s: Seq<char>, j: int)
    requires
        0 <= j <= s.len(),
    ensures
        j <= body_end(s, j) <= s.len(),
        forall|x: int| j <= x < body_end(s, j) ==> is_body_char(#[trigger] s[x]),
        body_end(s, j) < s.len() ==> !is_body_char(s[body_end(s, j)]),
    decreases s.len() - j,
{
    if j < s.len() && is_body_char(s[j]) {
        lemma_body_end_bounds(s, j + 1);
    }
}

pub proof fn lemma_sequence_end_bounds(s: Seq<char>, j: int)
    requires
        0 <= j <= s.len(),
    ensures
        j <= sequence_end(s, j) <= s.len(),
{
    lemma_body_end_bounds(s, j);
}

/// Character that, right after `ESC`, opens a sequence that stripping removes.
pub open spec fn opens_stripped_sequence(c: char) -> bool {
    c == '[' || c == ']' || c == '?'
}

/// Plain text of `s` from index `i` on, with control sequences removed.
pub open spec fn strip_from(s: Seq<char>, i: int) -> Seq<char>
    decreases s.len() - i,
    via strip_from_decreases
{
    if i < 0 || i >= s.len() {
        Seq::empty()
    } else if s[i] == ESC && i + 1 < s.len() && opens_stripped_sequence(s[i + 1]) {
        strip_from(s, sequence_end(s, i + 2))
    } else if s[i] == CSI {
        strip_from(s, sequence_end(s, i + 1))
    } else {
        seq![s[i]] + strip_from(s, i + 1)
    }
}

#[via_fn]
proof fn strip_from_decreases(s: Seq<char>, i: int) {
    if 0 <= i < s.len() {
        if s[i] == ESC && i + 1 < s.len() && opens_stripped_sequence(s[i + 1]) {
            lemma_sequence_end_bounds(s, i + 2);
        } else if s[i] == CSI {
            lemma_sequence_end_bounds(s, i + 1);
        }
    }
}

/// `s` with every control sequence removed.
pub open spec fn strip_spec(s: Seq<char>) -> Seq<char> {
    strip_from(s, 0)
}

/// Index just past the control sequence whose body starts at `j`.
fn scan_sequence_end(s: &str, n: usize, j: usize) -> (r: usize)
    requires
        n == s@.len(),
        j <= n,
    ensures
        r == sequence_end(s@, j as int),
{
    proof {
        lemma_body_end_bounds(s@, j as int);
    }
    let mut k: usize = j;
    while k < n && is_body(s.get_char(k))
        invariant
            n == s@.len(),
            j <= k <= n,
            body_end(s@, k as int) == body_end(s@, j as int),
        decreases n - k,
    {
        k = k + 1;
    }
    if k < n && is_final(s.get_char(k)) {
        k + 1
    } else {
        k
    }
}

fn is_body(c: char) -> (r: bool)
    ensures
        r == is_body_char(c),
{
    0x20 <= (c as u32) && (c as u32) <= 0x3f
}

fn is_final(c: char) -> (r: bool)
    ensures
        r == is_final_char(c),
{
    0x40 <= (c as u32) && (c as u32) <= 0x7e
}

/// Removes every control sequence from `s`, keeping all other characters.
pub fn strip_ansi(s: &str) -> (r: String)
    ensures
        r@ == strip_spec(s@),
{
    let n = s.unicode_len();
    let mut out = String::new();
    let mut start: usize = 0;
    let mut i: usize = 0;
    while i < n
        invariant
            n == s@.len(),
            start <= i <= n,
            out@ + s@.subrange(start as int, i as int) + strip_from(s@, i as int) == strip_spec(
                s@,
            ),
        decreases n - i,
    {
        let c = s.get_char(i);
        let opener = i + 1 < n && (s.get_char(i + 1) == '[' || s.get_char(i + 1) == ']'
            || s.get_char(i + 1) == '?');
        if c == ESC && opener {
            out.append(s.substring_char(start, i));
            let e = scan_sequence_end(s, n, i + 2);
            proof {
                lemma_sequence_end_bounds(s@, i + 2);
                assert(s@.subrange(start as int, i as int) + strip_from(s@, i as int)
                    == s@.subrange(start as int, i as int) + strip_from(s@, e as int));
                assert(s@.subrange(e as int, e as int) =~= Seq::<char>::empty());
            }
            i = e;
            start = e;
        } else if c == CSI {
            out.append(s.substring_char(start, i));
            let e = scan_sequence_end(s, n, i + 1);
            proof {
                lemma_sequence_end_bounds(s@, i + 1);
                assert(s@.subrange(e as int, e as int) =~= Seq::<char>::empty());
            }
            i = e;
            start = e;
        } else {
            proof {
                assert(s@.subrange(start as int, i + 1) =~= s@.subrange(start as int, i as int)
                    + seq![c]);
            }
            i = i + 1;
        }
    }
    out.append(s.substring_char(start, n));
    proof {
        assert(strip_from(s@, n as int) =~= Seq::<char>::empty());
    }
    out
}


/// The sixteen colours that select-graphic-rendition codes name.
#[derive(Clone, Copy, Debug, PartialEq, Eq, Structural)]
pub enum AnsiColor {
    Black,
    Red,
    Green,
    Yellow,
    Blue,
    Magenta,
    Cyan,
    White,
    BrightBlack,
    BrightRed,
    BrightGreen,
    BrightYellow,
    BrightBlue,
    BrightMagenta,
    BrightCyan,
    BrightWhite,
}

/// Colour of the standard code `30 + k`.
pub open spec fn standard_color(k: nat) -> AnsiColor {
    if k == 0 {
        AnsiColor::Black
    } else if k == 1 {
        AnsiColor::Red
    } else if k == 2 {
        AnsiColor::Green
    } else if k == 3 {
        AnsiColor::Yellow
    } else if k == 4 {
        AnsiColor::Blue
    } else if k == 5 {
        AnsiColor::Magenta
    } else if k == 6 {
        AnsiColor::Cyan
    } else {
        AnsiColor::White
    }
}

/// Colour of the bright code `90 + k`.
pub open spec fn bright_color(k: nat) -> AnsiColor {
    if k == 0 {
        AnsiColor::BrightBlack
    } else if k == 1 {
        AnsiColor::BrightRed
    } else if k == 2 {
        AnsiColor::BrightGreen
    } else if k == 3 {
        AnsiColor::BrightYellow
    } else if k == 4 {
        AnsiColor::BrightBlue
    } else if k == 5 {
        AnsiColor::BrightMagenta
    } else if k == 6 {
        AnsiColor::BrightCyan
    } else {
        AnsiColor::BrightWhite
    }
}

/// Screen colour of each named colour, as red, green and blue.
pub open spec fn palette(c: AnsiColor) -> (u8, u8, u8) {
    match c {
        AnsiColor::Black => (0, 0, 0),
        AnsiColor::Red => (205, 49, 49),
        AnsiColor::Green => (13, 188, 121),
        AnsiColor::Yellow => (229, 229, 16),
        AnsiColor::Blue => (36, 114, 200),
        AnsiColor::Magenta => (188, 63, 188),
        AnsiColor::Cyan => (17, 168, 205),
        AnsiColor::White => (229, 229, 229),
        AnsiColor::BrightBlack => (102, 102, 102),
        AnsiColor::BrightRed => (241, 76, 76),
        AnsiColor::BrightGreen => (35, 209, 139),
        AnsiColor::BrightYellow => (245, 245, 67),
        AnsiColor::BrightBlue => (59, 142, 234),
        AnsiColor::BrightMagenta => (214, 112, 214),
        AnsiColor::BrightCyan => (41, 184, 219),
        AnsiColor::BrightWhite => (255, 255, 255),
    }
}

impl AnsiColor {
    /// Screen colour as red, green and blue.
    pub fn rgb(self) -> (r: (u8, u8, u8))
        ensures
            r == palette(self),
    {
        match self {
            AnsiColor::Black => (0, 0, 0),
            AnsiColor::Red => (205, 49, 49),
            AnsiColor::Green => (13, 188, 121),
            AnsiColor::Yellow => (229, 229, 16),
            AnsiColor::Blue => (36, 114, 200),
            AnsiColor::Magenta => (188, 63, 188),
            AnsiColor::Cyan => (17, 168, 205),
            AnsiColor::White => (229, 229, 229),
            AnsiColor::BrightBlack => (102, 102, 102),
            AnsiColor::BrightRed => (241, 76, 76),
            AnsiColor::BrightGreen => (35, 209, 139),
            AnsiColor::BrightYellow => (245, 245, 67),
            AnsiColor::BrightBlue => (59, 142, 234),
            AnsiColor::BrightMagenta => (214, 112, 214),
            AnsiColor::BrightCyan => (41, 184, 219),
            AnsiColor::BrightWhite => (255, 255, 255),
        }
    }
}

/// Style after one rendition code: `0` resets, `1` sets bold, `30..=37` and
/// `90..=97` pick a colour, and every other code leaves the style as it is.
pub open spec fn apply_code(code: nat, color: Option<AnsiColor>, bold: bool) -> (Option<AnsiColor>, bool) {
    if code == 0 {
        (None, false)
    } else if code == 1 {
        (color, true)
    } else if 30 <= code <= 37 {
        (Some(standard_color((code - 30) as nat)), bold)
    } else if 90 <= code <= 97 {
        (Some(bright_color((code - 90) as nat)), bold)
    } else {
        (color, bold)
    }
}

/// A code's value after one more decimal digit; every value above 255 is
/// kept as 256, since no such code is recognised.
pub open spec fn digit_step(v: nat, d: nat) -> nat {
    if v * 10 + d > 256 {
        256
    } else {
        v * 10 + d
    }
}

/// The code that ends with the characters read so far: `None` once a
/// character other than a digit has been seen in it.
pub open spec fn finish_code(v: nat, numeric: bool, color: Option<AnsiColor>, bold: bool) -> (Option<AnsiColor>, bool) {
    if numeric {
        apply_code(v, color, bold)
    } else {
        (color, bold)
    }
}

/// Style after the `;`-separated codes in `s[x..k]`, with `v` the value of
/// the code read so far. An empty code counts as `0`; intermediate
/// characters are skipped.
pub open spec fn sgr_from(s: Seq<char>, x: int, k: int, v: nat, numeric: bool, color: Option<AnsiColor>, bold: bool) -> (Option<AnsiColor>, bool)
    decreases k - x,
{
    if x >= k || x < 0 || x >= s.len() {
        finish_code(v, numeric, color, bold)
    } else if s[x] == ';' {
        let st = finish_code(v, numeric, color, bold);
        sgr_from(s, x + 1, k, 0, true, st.0, st.1)
    } else if '0' <= s[x] && s[x] <= '9' {
        sgr_from(s, x + 1, k, digit_step(v, (s[x] as u32 - '0' as u32) as nat), numeric, color, bold)
    } else if is_param_char(s[x]) {
        sgr_from(s, x + 1, k, v, false, color, bold)
    } else {
        sgr_from(s, x + 1, k, v, numeric, color, bold)
    }
}

/// One styled segment: its text, colour and weight.
pub type SegmentModel = (Seq<char>, Option<AnsiColor>, bool);

/// The segment holding `text`, if there is any text.
pub open spec fn flush(text: Seq<char>, color: Option<AnsiColor>, bold: bool) -> Seq<SegmentModel> {
    if text.len() > 0 {
        seq![(text, color, bold)]
    } else {
        Seq::empty()
    }
}

/// Index of the body of a control sequence that opens at `i`, when one does.
pub open spec fn sgr_opener(s: Seq<char>, i: int) -> Option<int> {
    if 0 <= i < s.len() && s[i] == CSI {
        Some(i + 1)
    } else if 0 <= i && i + 1 < s.len() && s[i] == ESC && s[i + 1] == '[' {
        Some(i + 2)
    } else {
        None
    }
}

/// Segments of `s` from index `i` on, given the pending `text` and the
/// current style.
pub open spec fn parse_from(s: Seq<char>, i: int, text: Seq<char>, color: Option<AnsiColor>, bold: bool) -> Seq<SegmentModel>
    decreases s.len() - i,
    via parse_from_decreases
{
    if i < 0 || i >= s.len() {
        flush(text, color, bold)
    } else if let Some(j) = sgr_opener(s, i) {
        let k = body_end(s, j);
        if k < s.len() && is_final_char(s[k]) {
            if s[k] == 'm' {
                let st = sgr_from(s, j, k, 0, true, color, bold);
                flush(text, color, bold) + parse_from(s, k + 1, Seq::empty(), st.0, st.1)
            } else {
                parse_from(s, k + 1, text, color, bold)
            }
        } else {
            parse_from(s, k, text, color, bold)
        }
    } else {
        parse_from(s, i + 1, text.push(s[i]), color, bold)
    }
}

#[via_fn]
proof fn parse_from_decreases(s: Seq<char>, i: int, text: Seq<char>, color: Option<AnsiColor>, bold: bool) {
    if 0 <= i < s.len() {
        if let Some(j) = sgr_opener(s, i) {
            lemma_body_end_bounds(s, j);
        }
    }
}

/// Styled segments of `s`, in order, starting with no colour and no bold.
pub open spec fn parse_spec(s: Seq<char>) -> Seq<SegmentModel> {
    parse_from(s, 0, Seq::empty(), None, false)
}

/// A run of text drawn in one style.
pub struct AnsiSegment {
    pub text: String,
    pub color: Option<AnsiColor>,
    pub bold: bool,
}

impl View for AnsiSegment {
    type V = SegmentModel;

    open spec fn view(&self) -> SegmentModel {
        (self.text@, self.color, self.bold)
    }
}

/// The models of a sequence of segments.
pub open spec fn segment_models(v: Seq<AnsiSegment>) -> Seq<SegmentModel> {
    v.map_values(|g: AnsiSegment| g@)
}

/// Style after the codes of the sequence body `s[j..k]`.
fn scan_codes(s: &str, n: usize, j: usize, k: usize, color: Option<AnsiColor>, bold: bool) -> (r: (Option<AnsiColor>, bool))
    requires
        n == s@.len(),
        j <= k <= n,
    ensures
        r == sgr_from(s@, j as int, k as int, 0, true, color, bold),
{
    let mut x: usize = j;
    let mut v: u32 = 0;
    let mut numeric = true;
    let mut c = color;
    let mut b = bold;
    while x < k
        invariant
            n == s@.len(),
            j <= x <= k <= n,
            v <= 256,
            sgr_from(s@, x as int, k as int, v as nat, numeric, c, b) == sgr_from(
                s@,
                j as int,
                k as int,
                0,
                true,
                color,
                bold,
            ),
        decreases k - x,
    {
        let ch = s.get_char(x);
        if ch == ';' {
            if numeric {
                let st = apply_code_exec(v, c, b);
                c = st.0;
                b = st.1;
            }
            v = 0;
            numeric = true;
        } else if '0' <= ch && ch <= '9' {
            let d = (ch as u32) - ('0' as u32);
            if v * 10 + d > 256 {
                v = 256;
            } else {
                v = v * 10 + d;
            }
        } else if 0x30 <= (ch as u32) && (ch as u32) <= 0x3f {
            numeric = false;
        }
        x = x + 1;
    }
    if numeric {
        apply_code_exec(v, c, b)
    } else {
        (c, b)
    }
}

fn standard_color_exec(k: u32) -> (r: AnsiColor)
    requires
        k < 8,
    ensures
        r == standard_color(k as nat),
{
    if k == 0 {
        AnsiColor::Black
    } else if k == 1 {
        AnsiColor::Red
    } else if k == 2 {
        AnsiColor::Green
    } else if k == 3 {
        AnsiColor::Yellow
    } else if k == 4 {
        AnsiColor::Blue
    } else if k == 5 {
        AnsiColor::Magenta
    } else if k == 6 {
        AnsiColor::Cyan
    } else {
        AnsiColor::White
    }
}

fn bright_color_exec(k: u32) -> (r: AnsiColor)
    requires
        k < 8,
    ensures
        r == bright_color(k as nat),
{
    if k == 0 {
        AnsiColor::BrightBlack
    } else if k == 1 {
        AnsiColor::BrightRed
    } else if k == 2 {
        AnsiColor::BrightGreen
    } else if k == 3 {
        AnsiColor::BrightYellow
    } else if k == 4 {
        AnsiColor::BrightBlue
    } else if k == 5 {
        AnsiColor::BrightMagenta
    } else if k == 6 {
        AnsiColor::BrightCyan
    } else {
        AnsiColor::BrightWhite
    }
}

fn apply_code_exec(code: u32, color: Option<AnsiColor>, bold: bool) -> (r: (Option<AnsiColor>, bool))
    ensures
        r == apply_code(code as nat, color, bold),
{
    if code == 0 {
        (None, false)
    } else if code == 1 {
        (color, true)
    } else if 30 <= code && code <= 37 {
        (Some(standard_color_exec(code - 30)), bold)
    } else if 90 <= code && code <= 97 {
        (Some(bright_color_exec(code - 90)), bold)
    } else {
        (color, bold)
    }
}

/// Splits `s` into segments at each select-graphic-rendition sequence. Each
/// segment carries the style that was in force while its text was read;
/// other control sequences are dropped, and empty segments are not produced.
pub fn parse_ansi_line(s: &str) -> (r: Vec<AnsiSegment>)
    ensures
        segment_models(r@) == parse_spec(s@),
{
    let n = s.unicode_len();
    let mut out: Vec<AnsiSegment> = Vec::new();
    let mut cur = String::new();
    let mut color: Option<AnsiColor> = None;
    let mut bold = false;
    let mut start: usize = 0;
    let mut i: usize = 0;
    while i < n
        invariant
            n == s@.len(),
            start <= i <= n,
            segment_models(out@) + parse_from(
                s@,
                i as int,
                cur@ + s@.subrange(start as int, i as int),
                color,
                bold,
            ) == parse_spec(s@),
        decreases n - i,
    {
        let c = s.get_char(i);
        let j: usize;
        if c == CSI {
            j = i + 1;
        } else if c == ESC && i + 1 < n && s.get_char(i + 1) == '[' {
            j = i + 2;
        } else {
            proof {
                assert(s@.subrange(start as int, i + 1) =~= s@.subrange(start as int, i as int)
                    + seq![c]);
                assert(cur@ + s@.subrange(start as int, i + 1) =~= (cur@ + s@.subrange(
                    start as int,
                    i as int,
                )).push(c));
            }
            i = i + 1;
            continue;
        }
        let ghost text = cur@ + s@.subrange(start as int, i as int);
        cur.append(s.substring_char(start, i));
        assert(cur@ == text);
        let mut k: usize = j;
        proof {
            lemma_body_end_bounds(s@, j as int);
        }
        while k < n && is_body(s.get_char(k))
            invariant
                n == s@.len(),
                j <= k <= n,
                body_end(s@, k as int) == body_end(s@, j as int),
            decreases n - k,
        {
            k = k + 1;
        }
        if k < n && is_final(s.get_char(k)) {
            if s.get_char(k) == 'm' {
                let ghost before = out@;
                if !cur.as_str().is_empty() {
                    out.push(AnsiSegment { text: cur, color, bold });
                    assert(segment_models(out@) =~= segment_models(before) + flush(
                        text,
                        color,
                        bold,
                    ));
                } else {
                    assert(segment_models(out@) =~= segment_models(before) + flush(
                        text,
                        color,
                        bold,
                    ));
                }
                let st = scan_codes(s, n, j, k, color, bold);
                color = st.0;
                bold = st.1;
                cur = String::new();
                assert(segment_models(out@) + parse_from(s@, k + 1, Seq::empty(), color, bold)
                    =~= parse_spec(s@));
            }
            i = k + 1;
        } else {
            i = k;
        }
        start = i;
        assert(s@.subrange(start as int, i as int) =~= Seq::<char>::empty());
        assert(cur@ + s@.subrange(start as int, i as int) =~= cur@);
    }
    let ghost text = cur@ + s@.subrange(start as int, n as int);
    cur.append(s.substring_char(start, n));
    let ghost before = out@;
    if !cur.as_str().is_empty() {
        out.push(AnsiSegment { text: cur, color, bold });
    }
    assert(segment_models(out@) =~= segment_models(before) + flush(text, color, bold));
    out
}


/// Text holding no control-sequence introducer.
pub open spec fn is_plain(s: Seq<char>) -> bool {
    forall|i: int| 0 <= i < s.len() ==> #[trigger] s[i] != ESC && s[i] != CSI
}

proof fn lemma_plain_strip_from(s: Seq<char>, i: int)
    requires
        is_plain(s),
        0 <= i <= s.len(),
    ensures
        strip_from(s, i) == s.subrange(i, s.len() as int),
    decreases s.len() - i,
{
    if i < s.len() {
        lemma_plain_strip_from(s, i + 1);
        assert(s.subrange(i, s.len() as int) =~= seq![s[i]] + s.subrange(i + 1, s.len() as int));
    } else {
        assert(s.subrange(i, s.len() as int) =~= Seq::<char>::empty());
    }
}

proof fn lemma_plain_parse_from(s: Seq<char>, i: int, text: Seq<char>)
    requires
        is_plain(s),
        0 <= i <= s.len(),
    ensures
        parse_from(s, i, text, None, false) == flush(text + s.subrange(i, s.len() as int), None, false),
    decreases s.len() - i,
{
    if i < s.len() {
        lemma_plain_parse_from(s, i + 1, text.push(s[i]));
        assert(text.push(s[i]) + s.subrange(i + 1, s.len() as int) =~= text + s.subrange(i, s.len() as int));
    } else {
        assert(text + s.subrange(i, s.len() as int) =~= text);
    }
}

/// Text without control sequences is kept whole by stripping, and, when it
/// is not empty, parses to exactly one segment with no colour and no bold.
pub proof fn lemma_plain_text_unchanged(s: Seq<char>)
    requires
        is_plain(s),
    ensures
        strip_spec(s) == s,
        s.len() > 0 ==> parse_spec(s) == seq![(s, None::<AnsiColor>, false)],
{
    lemma_plain_strip_from(s, 0);
    lemma_plain_parse_from(s, 0, Seq::empty());
    assert(s.subrange(0, s.len() as int) =~= s);
    assert(Seq::<char>::empty() + s =~= s);
}

/// A character that takes more than one byte in UTF-8 and is not the C1
/// introducer.
pub open spec fn is_wide(c: char) -> bool {
    (c as u32) >= 0x80 && c != CSI
}

/// The wide characters of `t`, in order.
pub open spec fn wide_chars(t: Seq<char>) -> Seq<char>
    decreases t.len(),
{
    if t.len() == 0 {
        Seq::empty()
    } else if is_wide(t[0]) {
        seq![t[0]] + wide_chars(t.drop_first())
    } else {
        wide_chars(t.drop_first())
    }
}

proof fn lemma_wide_chars_prepend(c: char, t: Seq<char>)
    ensures
        wide_chars(seq![c] + t) == if is_wide(c) { seq![c] + wide_chars(t) } else { wide_chars(t) },
{
    assert((seq![c] + t).drop_first() =~= t);
}

/// The wide characters of `s` from index `i` on.
pub open spec fn wide_from(s: Seq<char>, i: int) -> Seq<char>
    decreases s.len() - i,
{
    if i < 0 || i >= s.len() {
        Seq::empty()
    } else if is_wide(s[i]) {
        seq![s[i]] + wide_from(s, i + 1)
    } else {
        wide_from(s, i + 1)
    }
}

proof fn lemma_wide_from_skip(s: Seq<char>, i: int, e: int)
    requires
        0 <= i <= e <= s.len(),
        forall|x: int| i <= x < e ==> !is_wide(#[trigger] s[x]),
    ensures
        wide_from(s, i) == wide_from(s, e),
    decreases e - i,
{
    if i < e {
        lemma_wide_from_skip(s, i + 1, e);
    }
}

proof fn lemma_sequence_is_narrow(s: Seq<char>, j: int)
    requires
        0 <= j <= s.len(),
    ensures
        forall|x: int| j <= x < sequence_end(s, j) ==> !is_wide(#[trigger] s[x]),
{
    lemma_body_end_bounds(s, j);
}

proof fn lemma_strip_keeps_wide_from(s: Seq<char>, i: int)
    requires
        0 <= i <= s.len(),
    ensures
        wide_chars(strip_from(s, i)) == wide_from(s, i),
    decreases s.len() - i,
{
    if i < s.len() {
        if s[i] == ESC && i + 1 < s.len() && opens_stripped_sequence(s[i + 1]) {
            let e = sequence_end(s, i + 2);
            lemma_sequence_end_bounds(s, i + 2);
            lemma_sequence_is_narrow(s, i + 2);
            lemma_wide_from_skip(s, i, e);
            lemma_strip_keeps_wide_from(s, e);
        } else if s[i] == CSI {
            let e = sequence_end(s, i + 1);
            lemma_sequence_end_bounds(s, i + 1);
            lemma_sequence_is_narrow(s, i + 1);
            lemma_wide_from_skip(s, i, e);
            lemma_strip_keeps_wide_from(s, e);
        } else {
            lemma_strip_keeps_wide_from(s, i + 1);
            lemma_wide_chars_prepend(s[i], strip_from(s, i + 1));
        }
    }
}

proof fn lemma_wide_from_whole(s: Seq<char>, i: int)
    requires
        0 <= i <= s.len(),
    ensures
        wide_from(s, i) == wide_chars(s.subrange(i, s.len() as int)),
    decreases s.len() - i,
{
    if i < s.len() {
        lemma_wide_from_whole(s, i + 1);
        assert(s.subrange(i, s.len() as int).drop_first() =~= s.subrange(i + 1, s.len() as int));
    } else {
        assert(s.subrange(i, s.len() as int) =~= Seq::<char>::empty());
    }
}

/// Stripping never splits a multi-byte character: every character outside
/// ASCII (but the C1 introducer) comes through whole and in order, and the
/// result encodes to valid UTF-8.
pub proof fn lemma_strip_keeps_wide_chars(s: Seq<char>)
    ensures
        wide_chars(strip_spec(s)) == wide_chars(s),
        vstd::utf8::valid_utf8(vstd::utf8::encode_utf8(strip_spec(s))),
{
    lemma_strip_keeps_wide_from(s, 0);
    lemma_wide_from_whole(s, 0);
    assert(s.subrange(0, s.len() as int) =~= s);
    vstd::utf8::encode_utf8_valid_utf8(strip_spec(s));
}

} // verus!
