//! ANSI colour escapes: adding them to text and stripping them back off.
use vstd::prelude::*;
use crate::text::{chars_of, push_char, push_str};

verus! {

/// The escape character that starts an ANSI control sequence.
pub open spec fn esc() -> char {
    '\u{1b}'
}

pub open spec fn is_ascii_letter(c: char) -> bool {
    ('A' <= c && c <= 'Z') || ('a' <= c && c <= 'z')
}

/// Where a left-to-right scan for escape sequences stands.
#[derive(Clone, Copy)]
pub enum ScanState {
    /// Plain text.
    Text,
    /// Just after an escape character.
    Escape,
    /// Inside `ESC [ ...`, which ends with the first ASCII letter.
    Sequence,
}

/// One step of the scan: the new state and the visible output so far.
pub open spec fn strip_step(st: ScanState, out: Seq<char>, c: char) -> (ScanState, Seq<char>) {
    match st {
        ScanState::Text => if c == esc() {
            (ScanState::Escape, out)
        } else {
            (ScanState::Text, out.push(c))
        },
        ScanState::Escape => if c == '[' {
            (ScanState::Sequence, out)
        } else if c == esc() {
            (ScanState::Escape, out.push(esc()))
        } else {
            (ScanState::Text, out.push(esc()).push(c))
        },
        ScanState::Sequence => if is_ascii_letter(c) {
            (ScanState::Text, out)
        } else {
            (ScanState::Sequence, out)
        },
    }
}

/// The scan of `s` started in state `st` with output `out`.
pub open spec fn strip_scan(st: ScanState, out: Seq<char>, s: Seq<char>) -> (ScanState, Seq<char>)
    decreases s.len(),
{
    if s.len() == 0 {
        (st, out)
    } else {
        let prev = strip_scan(st, out, s.drop_last());
        strip_step(prev.0, prev.1, s.last())
    }
}

/// The visible text of `s`: every `ESC [ ... letter` sequence removed. An
/// escape character that does not start such a sequence stays.
pub open spec fn strip_ansi_text(s: Seq<char>) -> Seq<char> {
    let r = strip_scan(ScanState::Text, Seq::empty(), s);
    match r.0 {
        ScanState::Escape => r.1.push(esc()),
        _ => r.1,
    }
}

/// Scanning a concatenation is scanning its second part from where the
/// first part left off.
pub proof fn lemma_strip_scan_concat(st: ScanState, out: Seq<char>, a: Seq<char>, b: Seq<char>)
    ensures
        strip_scan(st, out, a + b) == ({
            let mid = strip_scan(st, out, a);
            strip_scan(mid.0, mid.1, b)
        }),
    decreases b.len(),
{
    if b.len() == 0 {
        assert(a + b =~= a);
    } else {
        assert((a + b).drop_last() =~= a + b.drop_last());
        assert((a + b).last() == b.last());
        lemma_strip_scan_concat(st, out, a, b.drop_last());
    }
}

proof fn lemma_strip_scan_push(st: ScanState, out: Seq<char>, s: Seq<char>, c: char)
    ensures
        strip_scan(st, out, s.push(c)) == ({
            let prev = strip_scan(st, out, s);
            strip_step(prev.0, prev.1, c)
        }),
{
    assert(s.push(c).drop_last() =~= s);
}

proof fn lemma_scan_without_escapes(s: Seq<char>)
    requires
        forall|i: int| 0 <= i < s.len() ==> s[i] != esc(),
    ensures
        strip_scan(ScanState::Text, Seq::empty(), s) == (ScanState::Text, s),
    decreases s.len(),
{
    if s.len() > 0 {
        let d = s.drop_last();
        assert forall|i: int| 0 <= i < d.len() implies d[i] != esc() by {
            assert(d[i] == s[i]);
        }
        lemma_scan_without_escapes(d);
        assert(s.last() == s[s.len() - 1]);
        assert(d.push(s.last()) =~= s);
    }
}

/// Text without escape characters is its own visible text.
pub proof fn lemma_strip_without_escapes(s: Seq<char>)
    requires
        forall|i: int| 0 <= i < s.len() ==> s[i] != esc(),
    ensures
        strip_ansi_text(s) == s,
{
    lemma_scan_without_escapes(s);
}

/// Removes ANSI escape sequences, leaving the text a terminal shows.
pub fn strip_ansi(value: &str) -> (out: String)
    ensures
        out@ == strip_ansi_text(value@),
{
    let v = chars_of(value);
    let mut out = String::new();
    let mut st = ScanState::Text;
    let mut i: usize = 0;
    while i < v.len()
        invariant
            v@ == value@,
            i <= v@.len(),
            (st, out@) == strip_scan(ScanState::Text, Seq::empty(), v@.take(i as int)),
        decreases v@.len() - i,
    {
        let c = v[i];
        proof {
            assert(v@.take(i + 1) =~= v@.take(i as int).push(c));
            lemma_strip_scan_push(ScanState::Text, Seq::empty(), v@.take(i as int), c);
        }
        match st {
            ScanState::Text => {
                if c == '\u{1b}' {
                    st = ScanState::Escape;
                } else {
                    push_char(&mut out, c);
                }
            },
            ScanState::Escape => {
                if c == '[' {
                    st = ScanState::Sequence;
                } else if c == '\u{1b}' {
                    push_char(&mut out, '\u{1b}');
                } else {
                    push_char(&mut out, '\u{1b}');
                    push_char(&mut out, c);
                    st = ScanState::Text;
                }
            },
            ScanState::Sequence => {
                if ('A' <= c && c <= 'Z') || ('a' <= c && c <= 'z') {
                    st = ScanState::Text;
                }
            },
        }
        i = i + 1;
    }
    assert(v@.take(v@.len() as int) =~= v@);
    if let ScanState::Escape = st {
        push_char(&mut out, '\u{1b}');
    }
    out
}

/// A terminal colour.
#[derive(Clone, Copy, Debug)]
pub enum AnsiStyle {
    Red,
    Yellow,
    Green,
}

/// The SGR parameter that selects the colour.
pub open spec fn style_code(style: AnsiStyle) -> Seq<char> {
    match style {
        AnsiStyle::Red => seq!['3', '1'],
        AnsiStyle::Yellow => seq!['3', '3'],
        AnsiStyle::Green => seq!['3', '2'],
    }
}

/// `value` wrapped in the colour's escape and a reset, or `value` itself when
/// styling is off.
pub open spec fn styled_text(value: Seq<char>, style: AnsiStyle, enabled: bool) -> Seq<char> {
    if enabled {
        seq![esc(), '['] + style_code(style) + seq!['m'] + value + seq![esc(), '[', '0', 'm']
    } else {
        value
    }
}

/// Colours `value` when `enabled` (whether the terminal takes colours).
pub fn style_text(value: &str, style: AnsiStyle, enabled: bool) -> (out: String)
    ensures
        out@ == styled_text(value@, style, enabled),
{
    if !enabled {
        return value.to_owned();
    }
    let mut out = String::new();
    push_char(&mut out, '\u{1b}');
    push_char(&mut out, '[');
    match style {
        AnsiStyle::Red => {
            push_char(&mut out, '3');
            push_char(&mut out, '1');
        },
        AnsiStyle::Yellow => {
            push_char(&mut out, '3');
            push_char(&mut out, '3');
        },
        AnsiStyle::Green => {
            push_char(&mut out, '3');
            push_char(&mut out, '2');
        },
    }
    push_char(&mut out, 'm');
    push_str(&mut out, value);
    push_char(&mut out, '\u{1b}');
    push_char(&mut out, '[');
    push_char(&mut out, '0');
    push_char(&mut out, 'm');
    assert(out@ =~= styled_text(value@, style, enabled));
    out
}

/// Colouring text never changes what a terminal shows of it: stripping the
/// escapes from styled text gives the same visible text as stripping them
/// from the text itself.
pub proof fn law_styling_is_invisible(value: Seq<char>, style: AnsiStyle, enabled: bool)
    ensures
        strip_ansi_text(styled_text(value, style, enabled)) == strip_ansi_text(value),
{
    if enabled {
        let e: Seq<char> = Seq::empty();
        let prefix = seq![esc(), '['] + style_code(style) + seq!['m'];
        let suffix = seq![esc(), '[', '0', 'm'];
        let code = style_code(style);
        assert(prefix =~= e.push(esc()).push('[').push(code[0]).push(code[1]).push('m'));
        lemma_strip_scan_push(ScanState::Text, e, e, esc());
        assert(strip_scan(ScanState::Text, e, e) == (ScanState::Text, e));
        lemma_strip_scan_push(ScanState::Text, e, e.push(esc()), '[');
        lemma_strip_scan_push(ScanState::Text, e, e.push(esc()).push('['), code[0]);
        lemma_strip_scan_push(ScanState::Text, e, e.push(esc()).push('[').push(code[0]), code[1]);
        lemma_strip_scan_push(
            ScanState::Text,
            e,
            e.push(esc()).push('[').push(code[0]).push(code[1]),
            'm',
        );
        assert(strip_scan(ScanState::Text, e, prefix) == (ScanState::Text, e));
        let mid = strip_scan(ScanState::Text, e, value);
        lemma_strip_scan_concat(ScanState::Text, e, prefix, value);
        lemma_strip_scan_concat(ScanState::Text, e, prefix + value, suffix);
        assert(prefix + value + suffix == (prefix + value) + suffix);
        assert(suffix =~= e.push(esc()).push('[').push('0').push('m'));
        lemma_strip_scan_push(mid.0, mid.1, e, esc());
        assert(strip_scan(mid.0, mid.1, e) == mid);
        lemma_strip_scan_push(mid.0, mid.1, e.push(esc()), '[');
        lemma_strip_scan_push(mid.0, mid.1, e.push(esc()).push('['), '0');
        lemma_strip_scan_push(mid.0, mid.1, e.push(esc()).push('[').push('0'), 'm');
        assert(styled_text(value, style, enabled) == prefix + value + suffix);
    }
}

} // verus!
