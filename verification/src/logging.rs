//! The fields of a log event, as the log layer collects them.
use crate::types::str_eq;
use vstd::utf8::encode_utf8;
use vstd::prelude::*;

verus! {

/// The layer that prints log events, one colored line each.
#[derive(Debug, Clone, Copy)]
pub struct CraftLayer;

/// The fields of one event: its message, and the other fields by name.
#[derive(Debug)]
pub struct CraftVisitor {
    pub message: Option<String>,
    pub other_fields: Vec<(String, String)>,
}

/// The view of named texts.
pub open spec fn text_entries(e: Seq<(String, String)>) -> Seq<(Seq<char>, Seq<char>)> {
    Seq::new(e.len(), |i: int| (e[i].0@, e[i].1@))
}

/// `e` with the text of `k` set to `v`: in place when `k` is there, at the end otherwise.
pub open spec fn set_text(e: Seq<(Seq<char>, Seq<char>)>, k: Seq<char>, v: Seq<char>) -> Seq<
    (Seq<char>, Seq<char>),
>
    decreases e.len(),
{
    if e.len() == 0 {
        seq![(k, v)]
    } else if e[0].0 == k {
        e.update(0, (k, v))
    } else {
        seq![e[0]] + set_text(e.drop_first(), k, v)
    }
}

/// No name occurs twice.
pub open spec fn names_unique(e: Seq<(Seq<char>, Seq<char>)>) -> bool {
    forall|i: int, j: int| 0 <= i < j < e.len() ==> (#[trigger] e[i]).0 != (#[trigger] e[j]).0
}

/// Setting at the position of a name that is there changes just that entry.
proof fn lemma_set_text_found(e: Seq<(Seq<char>, Seq<char>)>, i: int, k: Seq<char>, v: Seq<char>)
    requires
        0 <= i < e.len(),
        e[i].0 == k,
        forall|j: int| 0 <= j < i ==> e[j].0 != k,
    ensures
        set_text(e, k, v) == e.update(i, (k, v)),
    decreases e.len(),
{
    if i > 0 {
        lemma_set_text_found(e.drop_first(), i - 1, k, v);
        assert(seq![e[0]] + e.drop_first().update(i - 1, (k, v)) =~= e.update(i, (k, v)));
    }
}

/// Setting a name that is not there appends it.
proof fn lemma_set_text_absent(e: Seq<(Seq<char>, Seq<char>)>, k: Seq<char>, v: Seq<char>)
    requires
        forall|j: int| 0 <= j < e.len() ==> e[j].0 != k,
    ensures
        set_text(e, k, v) == e.push((k, v)),
    decreases e.len(),
{
    if e.len() > 0 {
        lemma_set_text_absent(e.drop_first(), k, v);
        assert(seq![e[0]] + e.drop_first().push((k, v)) =~= e.push((k, v)));
    }
}

impl CraftVisitor {
    /// No fields yet.
    pub fn new() -> (r: CraftVisitor)
        ensures
            r.message is None,
            r.other_fields@.len() == 0,
    {
        CraftVisitor { message: None, other_fields: Vec::new() }
    }

    /// Records a field: the one named `message` is the message, the others are kept
    /// by name, a name recorded again replacing its value.
    pub fn record(&mut self, field: &str, value: String)
        requires
            names_unique(text_entries(old(self).other_fields@)),
        ensures
            names_unique(text_entries(final(self).other_fields@)),
            field@ == "message"@ ==> final(self).message == Some(value) && final(self).other_fields
                == old(self).other_fields,
            field@ != "message"@ ==> final(self).message == old(self).message && text_entries(
                final(self).other_fields@,
            ) == set_text(text_entries(old(self).other_fields@), field@, value@),
    {
        if str_eq(field, "message") {
            self.message = Some(value);
            return;
        }
        let ghost e = text_entries(self.other_fields@);
        let n = self.other_fields.len();
        let mut i: usize = 0;
        while i < n
            invariant
                i <= n,
                n == self.other_fields@.len(),
                self.other_fields == old(self).other_fields,
                self.message == old(self).message,
                field@ != "message"@,
                names_unique(e),
                e == text_entries(self.other_fields@),
                forall|j: int| 0 <= j < i ==> e[j].0 != field@,
            decreases n - i,
        {
            if str_eq(self.other_fields[i].0.as_str(), field) {
                proof {
                    lemma_set_text_found(e, i as int, field@, value@);
                }
                let key = field.to_owned();
                self.other_fields.set(i, (key, value));
                proof {
                    assert(text_entries(self.other_fields@) =~= e.update(i as int, (field@, value@)));
                    assert forall|a: int, b: int|
                        0 <= a < b < self.other_fields@.len() implies (#[trigger] text_entries(
                        self.other_fields@,
                    )[a]).0 != (#[trigger] text_entries(self.other_fields@)[b]).0 by {
                        if a != i && b != i {
                            assert(text_entries(self.other_fields@)[a].0 == e[a].0);
                            assert(text_entries(self.other_fields@)[b].0 == e[b].0);
                        } else if a == i {
                            assert(text_entries(self.other_fields@)[b].0 == e[b].0);
                            assert(e[i as int].0 == field@);
                        } else {
                            assert(text_entries(self.other_fields@)[a].0 == e[a].0);
                        }
                    }
                }
                return;
            }
            i = i + 1;
        }
        proof {
            lemma_set_text_absent(e, field@, value@);
        }
        let key = field.to_owned();
        self.other_fields.push((key, value));
        proof {
            assert(text_entries(self.other_fields@) =~= e.push((field@, value@)));
            assert forall|a: int, b: int| 0 <= a < b < self.other_fields@.len() implies (#[trigger] text_entries(
                self.other_fields@,
            )[a]).0 != (#[trigger] text_entries(self.other_fields@)[b]).0 by {
                assert(text_entries(self.other_fields@)[a] == e[a]);
                if b < n {
                    assert(text_entries(self.other_fields@)[b] == e[b]);
                }
            }
        }
    }
}

} // verus!

verus! {

/// The name of a level as the log shows it.
pub open spec fn level_name(l: crate::cli::LogLevel) -> Seq<char> {
    match l {
        crate::cli::LogLevel::Error => "ERROR"@,
        crate::cli::LogLevel::Warn => "WARN"@,
        crate::cli::LogLevel::Info => "INFO"@,
        crate::cli::LogLevel::Debug => "DEBUG"@,
        crate::cli::LogLevel::Trace => "TRACE"@,
    }
}

/// The name of a level as the log shows it.
pub fn level_str(l: crate::cli::LogLevel) -> (r: &'static str)
    ensures
        r@ == level_name(l),
{
    match l {
        crate::cli::LogLevel::Error => "ERROR",
        crate::cli::LogLevel::Warn => "WARN",
        crate::cli::LogLevel::Info => "INFO",
        crate::cli::LogLevel::Debug => "DEBUG",
        crate::cli::LogLevel::Trace => "TRACE",
    }
}

/// The colors behind the level badges.
#[derive(Debug, Clone, Copy, PartialEq, Eq, Structural)]
pub enum BadgeColor {
    Green,
    Yellow,
    Red,
    Blue,
    Purple,
}

/// The color behind the badge of a level: green for info, yellow for warn, red
/// for error, blue for debug, purple for trace.
pub open spec fn spec_badge_color(level: crate::cli::LogLevel) -> BadgeColor {
    match level {
        crate::cli::LogLevel::Info => BadgeColor::Green,
        crate::cli::LogLevel::Warn => BadgeColor::Yellow,
        crate::cli::LogLevel::Error => BadgeColor::Red,
        crate::cli::LogLevel::Debug => BadgeColor::Blue,
        crate::cli::LogLevel::Trace => BadgeColor::Purple,
    }
}

/// The color behind the badge of a level.
pub fn badge_color(level: crate::cli::LogLevel) -> (r: BadgeColor)
    ensures
        r == spec_badge_color(level),
{
    match level {
        crate::cli::LogLevel::Info => BadgeColor::Green,
        crate::cli::LogLevel::Warn => BadgeColor::Yellow,
        crate::cli::LogLevel::Error => BadgeColor::Red,
        crate::cli::LogLevel::Debug => BadgeColor::Blue,
        crate::cli::LogLevel::Trace => BadgeColor::Purple,
    }
}

/// The escape sequence that starts a style: `ESC [`, the codes, `m`.
pub open spec fn ansi_start(codes: Seq<char>) -> Seq<char> {
    seq!['\x1b', '['] + codes + seq!['m']
}

/// The escape sequence after a painted text, which resets the style: `ESC [0m`.
pub open spec fn ansi_reset() -> Seq<char> {
    seq!['\x1b', '[', '0', 'm']
}

/// The code of a background color.
pub open spec fn background_code(color: BadgeColor) -> Seq<char> {
    match color {
        BadgeColor::Red => seq!['4', '1'],
        BadgeColor::Green => seq!['4', '2'],
        BadgeColor::Yellow => seq!['4', '3'],
        BadgeColor::Blue => seq!['4', '4'],
        BadgeColor::Purple => seq!['4', '5'],
    }
}

/// `text` painted black, bold, on `color`: the codes bold (1), the background,
/// and black (30).
pub open spec fn badge_text(text: Seq<char>, color: BadgeColor) -> Seq<char> {
    ansi_start(seq!['1', ';'] + background_code(color) + seq![';', '3', '0']) + text + ansi_reset()
}

/// `text` painted dimmed (2) and italic (3).
pub open spec fn dimmed_italic_text(text: Seq<char>) -> Seq<char> {
    ansi_start(seq!['2', ';', '3']) + text + ansi_reset()
}

/// `text` painted cyan (36).
pub open spec fn cyan_text(text: Seq<char>) -> Seq<char> {
    ansi_start(seq!['3', '6']) + text + ansi_reset()
}

/// `text` painted light red (91).
pub open spec fn light_red_text(text: Seq<char>) -> Seq<char> {
    ansi_start(seq!['9', '1']) + text + ansi_reset()
}

/// Paints with `nu_ansi_term`: `Color::Black.on(color).bold().paint(text)`.
/// Trusted: claims the text that `nu_ansi_term` 0.50 writes for that style (prefix,
/// text, reset), as `badge_text` states it.
#[verifier::external_body]
fn paint_badge(text: &str, color: BadgeColor) -> (r: String)
    ensures
        r@ == badge_text(text@, color),
{
    let color = match color {
        BadgeColor::Green => nu_ansi_term::Color::Green,
        BadgeColor::Yellow => nu_ansi_term::Color::Yellow,
        BadgeColor::Red => nu_ansi_term::Color::Red,
        BadgeColor::Blue => nu_ansi_term::Color::Blue,
        BadgeColor::Purple => nu_ansi_term::Color::Purple,
    };
    nu_ansi_term::Color::Black.on(color).bold().paint(text).to_string()
}

/// Paints with `nu_ansi_term`: `Style::default().dimmed().italic().paint(text)`.
/// Trusted: claims the text that `nu_ansi_term` 0.50 writes for that style, as
/// `dimmed_italic_text` states it.
#[verifier::external_body]
fn paint_key(text: &str) -> (r: String)
    ensures
        r@ == dimmed_italic_text(text@),
{
    nu_ansi_term::Style::default().dimmed().italic().paint(text).to_string()
}

/// Paints with `nu_ansi_term`: `Color::Cyan.paint(text)`.
/// Trusted: claims the text that `nu_ansi_term` 0.50 writes for that style, as
/// `cyan_text` states it.
#[verifier::external_body]
fn paint_cyan(text: &str) -> (r: String)
    ensures
        r@ == cyan_text(text@),
{
    nu_ansi_term::Color::Cyan.paint(text).to_string()
}

/// Paints with `nu_ansi_term`: `Color::LightRed.paint(text)`.
/// Trusted: claims the text that `nu_ansi_term` 0.50 writes for that style, as
/// `light_red_text` states it.
#[verifier::external_body]
fn paint_light_red(text: &str) -> (r: String)
    ensures
        r@ == light_red_text(text@),
{
    nu_ansi_term::Color::LightRed.paint(text).to_string()
}

/// The texts one after the other, with `sep` between each two.
pub open spec fn interleave(parts: Seq<Seq<char>>, sep: Seq<char>) -> Seq<char>
    decreases parts.len(),
{
    if parts.len() == 0 {
        Seq::empty()
    } else if parts.len() == 1 {
        parts[0]
    } else {
        parts[0] + sep + interleave(parts.drop_first(), sep)
    }
}

/// Where the first `::` at or after `i` starts (the length when there is none).
pub open spec fn first_sep(t: Seq<char>, i: nat) -> nat
    decreases t.len() - i,
{
    if i + 1 >= t.len() {
        t.len()
    } else if t[i as int] == ':' && t[(i + 1) as int] == ':' {
        i
    } else {
        first_sep(t, i + 1)
    }
}

/// The parts of `t` between the `::`, from the left.
pub open spec fn segments(t: Seq<char>) -> Seq<Seq<char>>
    decreases t.len(),
{
    let k = first_sep(t, 0);
    if k >= t.len() {
        seq![t]
    } else {
        proof {
            lemma_first_sep_bound(t, 0);
        }
        seq![t.take(k as int)] + segments(t.skip((k + 2) as int))
    }
}

/// The parts of a target painted cyan, with `::` painted light red between them.
pub open spec fn target_text(t: Seq<char>) -> Seq<char> {
    interleave(Seq::new(segments(t).len(), |i: int| cyan_text(segments(t)[i])), light_red_text(seq![':', ':']))
}

/// `n` spaces.
pub open spec fn spaces(n: nat) -> Seq<char> {
    Seq::new(n, |i: int| ' ')
}

/// The fields, each as its painted name, ` = ` and its value, on lines of their own
/// indented past the level; nothing when there are none.
pub open spec fn fields_text(level: crate::cli::LogLevel, fields: Seq<(Seq<char>, Seq<char>)>) -> Seq<char> {
    if fields.len() == 0 {
        Seq::empty()
    } else {
        let pad = spaces(level_name(level).len() + 1);
        seq!['\n'] + pad + interleave(field_texts(fields), seq!['\n'] + pad)
    }
}

/// The painted name of a field, ` = `, and its value.
pub open spec fn field_text(f: (Seq<char>, Seq<char>)) -> Seq<char> {
    dimmed_italic_text(f.0) + seq![' ', '=', ' '] + f.1
}

/// The texts of the fields, in order.
pub open spec fn field_texts(fields: Seq<(Seq<char>, Seq<char>)>) -> Seq<Seq<char>> {
    Seq::new(fields.len(), |i: int| field_text(fields[i]))
}

/// The line of an event: the painted level, a space, the painted target, the
/// message after a space if there is one, a space, and the fields.
pub open spec fn event_text(
    level: crate::cli::LogLevel,
    target: Seq<char>,
    message: Option<Seq<char>>,
    fields: Seq<(Seq<char>, Seq<char>)>,
) -> Seq<char> {
    badge_text(seq![' '] + level_name(level) + seq![' '], spec_badge_color(level)) + seq![' '] + target_text(target) + match message {
        Some(m) => seq![' '] + m,
        None => Seq::empty(),
    } + seq![' '] + fields_text(level, fields)
}

/// Text being put together as UTF-8 bytes.
pub(crate) struct TextBuf {
    pub(crate) bytes: Vec<u8>,
    pub(crate) text: Ghost<Seq<char>>,
}

impl TextBuf {
    pub(crate) open spec fn wf(&self) -> bool {
        self.bytes@ == encode_utf8(self.text@)
    }

    pub(crate) fn new() -> (r: TextBuf)
        ensures
            r.wf(),
            r.text@ == Seq::<char>::empty(),
    {
        TextBuf { bytes: Vec::new(), text: Ghost(Seq::empty()) }
    }

    pub(crate) fn push_str(&mut self, s: &str)
        requires
            old(self).wf(),
        ensures
            final(self).wf(),
            final(self).text@ == old(self).text@ + s@,
    {
        crate::ser::put_slice(&mut self.bytes, s.as_bytes());
        proof {
            crate::types::lemma_encode_utf8_concat(self.text@, s@);
        }
        self.text = Ghost(self.text@ + s@);
    }

    pub(crate) fn push_ascii(&mut self, c: char)
        requires
            old(self).wf(),
            (c as u32) < 128,
        ensures
            final(self).wf(),
            final(self).text@ == old(self).text@.push(c),
    {
        let b = c as u32;
        proof {
            assert(b < 128 ==> (b & 0x7F) as u8 == b as u8) by (bit_vector);
            assert(vstd::utf8::encode_scalar(b) =~= seq![b as u8]);
            let one = seq![c];
            assert(one[0] == c);
            assert(one.drop_first() =~= Seq::<char>::empty());
            assert(encode_utf8(one.drop_first()) =~= Seq::<u8>::empty());
            assert(encode_utf8(one) =~= seq![b as u8]);
            crate::types::lemma_encode_utf8_concat(self.text@, one);
            assert(self.text@ + one =~= self.text@.push(c));
        }
        let ghost before = self.text@;
        self.bytes.push(b as u8);
        self.text = Ghost(self.text@.push(c));
        assert(encode_utf8(self.text@) == encode_utf8(before) + seq![b as u8]);
        assert(self.bytes@ =~= encode_utf8(before) + seq![b as u8]);
    }

    pub(crate) fn into_string(self) -> (r: String)
        requires
            self.wf(),
        ensures
            r@ == self.text@,
    {
        proof {
            vstd::utf8::encode_utf8_valid_utf8(self.text@);
            vstd::utf8::encode_utf8_decode_utf8(self.text@);
        }
        match crate::nbt::string_from_utf8(self.bytes) {
            Some(s) => s,
            None => {
                assert(false);
                String::new()
            },
        }
    }
}

/// The `::`-separated parts of a target, from position `i` on, give the parts of the
/// rest of the text.
pub proof fn lemma_first_sep_bound(t: Seq<char>, i: nat)
    ensures
        i <= first_sep(t, i) || first_sep(t, i) == t.len(),
        first_sep(t, i) <= t.len(),
        first_sep(t, i) < t.len() ==> first_sep(t, i) + 1 < t.len() && t[first_sep(t, i) as int] == ':'
            && t[(first_sep(t, i) + 1) as int] == ':',
    decreases t.len() - i,
{
    if i + 1 < t.len() && !(t[i as int] == ':' && t[(i + 1) as int] == ':') {
        lemma_first_sep_bound(t, i + 1);
    }
}

/// Where the first `::` at or after `i` starts, in `c`.
fn find_sep(c: &[char], i: usize) -> (r: usize)
    requires
        i <= c@.len(),
    ensures
        r == first_sep(c@, i as nat),
{
    let mut j = i;
    while j < c.len() && c.len() - j > 1 && !(c[j] == ':' && c[j + 1] == ':')
        invariant
            i <= j <= c@.len(),
            first_sep(c@, j as nat) == first_sep(c@, i as nat),
        decreases c@.len() - j,
    {
        j = j + 1;
    }
    if j < c.len() && c.len() - j > 1 {
        j
    } else {
        c.len()
    }
}

/// The parts of a target painted cyan, with `::` painted light red between them.
pub fn paint_target(target: &str) -> (r: String)
    ensures
        r@ == target_text(target@),
{
    let c = crate::cli::chars_of(target);
    let sep = paint_light_red("::");
    proof {
        reveal_strlit("::");
        assert("::"@ =~= seq![':', ':']);
    }
    let mut out = TextBuf::new();
    let mut start: usize = 0;
    let ghost all = segments(target@);
    let ghost painted = Seq::new(all.len(), |i: int| cyan_text(all[i]));
    let ghost mut done: nat = 0;
    assert(c@.skip(0) =~= c@);
    assert(painted.skip(0) =~= painted);
    assert(out.text@ + interleave(painted.skip(0), sep@) =~= interleave(painted, sep@));
    loop
        invariant
            c@ == target@,
            start <= c@.len(),
            out.wf(),
            all == segments(target@),
            painted == Seq::new(all.len(), |i: int| cyan_text(all[i])),
            sep@ == light_red_text(seq![':', ':']),
            segments(c@.skip(start as int)) == all.skip(done as int),
            done < all.len(),
            out.text@ + interleave(painted.skip(done as int), sep@) == interleave(painted, sep@),
        decreases c@.len() - start,
    {
        let k = find_sep(c.as_slice(), start);
        proof {
            lemma_first_sep_bound(c@, start as nat);
            lemma_first_sep_skip(c@, start as nat);
        }
        let part = target.substring_char(start, k);
        let piece = paint_cyan(part);
        let ghost rest = c@.skip(start as int);
        if k >= c.len() {
            proof {
                assert(part@ =~= rest);
                assert(segments(rest) == seq![rest]);
                assert(all.skip(done as int) =~= seq![rest]);
                assert(all[done as int] == all.skip(done as int)[0]);
                assert(painted.skip(done as int).len() == 1);
                assert(painted.skip(done as int)[0] == painted[done as int]);
                assert(painted.skip(done as int) =~= seq![cyan_text(rest)]);
            }
            out.push_str(piece.as_str());
            assert(out.text@ =~= interleave(painted, sep@));
            return out.into_string();
        }
        proof {
            assert(part@ =~= rest.take((k - start) as int));
            assert(rest.skip(((k - start) + 2) as int) =~= c@.skip((k + 2) as int));
            assert(all.skip(done as int) =~= seq![part@] + segments(c@.skip((k + 2) as int)));
            assert(all.skip(done as int)[0] == part@);
            assert(all.skip((done + 1) as int) =~= all.skip(done as int).drop_first());
            assert(all.skip((done + 1) as int) =~= segments(c@.skip((k + 2) as int)));
            assert(all[done as int] == part@);
            assert(painted[done as int] == cyan_text(part@));
            assert(painted.skip(done as int)[0] == cyan_text(part@));
            assert(painted.skip(done as int).drop_first() =~= painted.skip((done + 1) as int));
            assert(painted.skip(done as int).len() >= 2);
        }
        out.push_str(piece.as_str());
        out.push_str(sep.as_str());
        proof {
            assert(out.text@ + interleave(painted.skip((done + 1) as int), sep@) =~= interleave(painted, sep@));
            done = done + 1;
        }
        start = k + 2;
    }
}

/// Finding `::` from `i` finds it in the text from `i` on, shifted.
proof fn lemma_first_sep_skip(t: Seq<char>, i: nat)
    requires
        i <= t.len(),
    ensures
        first_sep(t, i) == if first_sep(t.skip(i as int), 0) >= t.skip(i as int).len() {
            t.len()
        } else {
            i + first_sep(t.skip(i as int), 0)
        },
    decreases t.len() - i,
{
    lemma_first_sep_shift(t, i, 0);
}

/// Scanning `t` from `i + j` is scanning `t.skip(i)` from `j`, shifted.
proof fn lemma_first_sep_shift(t: Seq<char>, i: nat, j: nat)
    requires
        i + j <= t.len(),
    ensures
        first_sep(t, i + j) == if first_sep(t.skip(i as int), j) >= t.skip(i as int).len() {
            t.len()
        } else {
            i + first_sep(t.skip(i as int), j)
        },
    decreases t.len() - (i + j),
{
    let s = t.skip(i as int);
    if i + j + 1 < t.len() {
        assert(s[j as int] == t[(i + j) as int]);
        assert(s[(j + 1) as int] == t[(i + j + 1) as int]);
        if !(t[(i + j) as int] == ':' && t[(i + j + 1) as int] == ':') {
            lemma_first_sep_shift(t, i, j + 1);
        }
    }
}

} // verus!

verus! {

/// Adding a text at the end of interleaved texts adds the separator and the text.
proof fn lemma_interleave_push(p: Seq<Seq<char>>, x: Seq<char>, sep: Seq<char>)
    ensures
        interleave(p.push(x), sep) == if p.len() == 0 {
            x
        } else {
            interleave(p, sep) + sep + x
        },
    decreases p.len(),
{
    if p.len() == 0 {
        assert(p.push(x) =~= seq![x]);
    } else if p.len() == 1 {
        assert(p.push(x).drop_first() =~= seq![x]);
        assert(p.push(x)[0] == p[0]);
        assert(interleave(seq![x], sep) == x);
        assert(interleave(p.push(x), sep) == p[0] + sep + x);
    } else {
        assert(p.push(x)[0] == p[0]);
        assert(p.push(x).drop_first() =~= p.drop_first().push(x));
        lemma_interleave_push(p.drop_first(), x, sep);
        assert(interleave(p.push(x), sep) =~= p[0] + sep + (interleave(p.drop_first(), sep) + sep + x));
    }
}


impl TextBuf {
    /// Appends `n + 1` spaces.
    fn push_pad(&mut self, n: usize)
        requires
            old(self).wf(),
        ensures
            final(self).wf(),
            final(self).text@ == old(self).text@ + spaces((n + 1) as nat),
    {
        let ghost start = self.text@;
        let mut i: usize = 0;
        while i < n
            invariant
                i <= n,
                self.wf(),
                self.text@ == start + spaces(i as nat),
            decreases n - i,
        {
            self.push_ascii(' ');
            assert(start + spaces(i as nat) + seq![' '] =~= start + spaces((i + 1) as nat));
            assert((start + spaces(i as nat)).push(' ') =~= start + spaces((i + 1) as nat));
            i = i + 1;
        }
        self.push_ascii(' ');
        assert((start + spaces(n as nat)).push(' ') =~= start + spaces((n + 1) as nat));
    }
}

/// The fields, each as its painted name, ` = ` and its value, on lines of their own
/// indented past the level; nothing when there are none.
pub fn paint_fields(level: crate::cli::LogLevel, fields: &Vec<(String, String)>) -> (r: String)
    ensures
        r@ == fields_text(level, text_entries(fields@)),
{
    if fields.len() == 0 {
        return String::new();
    }
    let name = level_str(level);
    let n = name.unicode_len();
    let ghost f = text_entries(fields@);
    let ghost items = field_texts(f);
    let ghost pad = spaces(n as nat + 1);
    let mut out = TextBuf::new();
    out.push_ascii('\n');
    out.push_pad(n);
    let ghost prefix = out.text@;
    assert(prefix =~= seq!['\n'] + pad);
    let mut i: usize = 0;
    assert(items.take(0) =~= Seq::<Seq<char>>::empty());
    assert(out.text@ =~= prefix + interleave(items.take(0), seq!['\n'] + pad));
    while i < fields.len()
        invariant
            i <= fields@.len(),
            out.wf(),
            f == text_entries(fields@),
            items == field_texts(f),
            pad == spaces(n as nat + 1),
            out.text@ == prefix + interleave(items.take(i as int), seq!['\n'] + pad),
        decreases fields@.len() - i,
    {
        let ghost before = out.text@;
        proof {
            lemma_interleave_push(items.take(i as int), items[i as int], seq!['\n'] + pad);
            assert(items.take(i + 1) =~= items.take(i as int).push(items[i as int]));
        }
        if i > 0 {
            out.push_ascii('\n');
            out.push_pad(n);
        }
        let ghost mid = out.text@;
        let key = paint_key(fields[i].0.as_str());
        out.push_str(key.as_str());
        out.push_ascii(' ');
        out.push_ascii('=');
        out.push_ascii(' ');
        out.push_str(fields[i].1.as_str());
        proof {
            assert(f[i as int] == (fields@[i as int].0@, fields@[i as int].1@));
            assert(out.text@ =~= mid + field_text(f[i as int]));
            if i > 0 {
                assert(mid =~= before + (seq!['\n'] + pad));
                assert(out.text@ =~= prefix + (interleave(items.take(i as int), seq!['\n'] + pad) + (seq!['\n']
                    + pad) + items[i as int]));
            } else {
                assert(items.take(0) =~= Seq::<Seq<char>>::empty());
                assert(out.text@ =~= prefix + items[0]);
            }
        }
        i = i + 1;
    }
    assert(items.take(fields@.len() as int) =~= items);
    out.into_string()
}

impl CraftLayer {
    /// The line that the layer prints for an event of `level` from `target` with
    /// the fields recorded in `visitor`.
    pub fn event_line(&self, level: crate::cli::LogLevel, target: &str, visitor: &CraftVisitor) -> (r: String)
        ensures
            r@ == event_text(
                level,
                target@,
                match visitor.message {
                    Some(m) => Some(m@),
                    None => None,
                },
                text_entries(visitor.other_fields@),
            ),
    {
        let mut b = TextBuf::new();
        b.push_ascii(' ');
        b.push_str(level_str(level));
        b.push_ascii(' ');
        assert(b.text@ =~= seq![' '] + level_name(level) + seq![' ']);
        let badge = paint_badge(b.into_string().as_str(), badge_color(level));
        let mut out = TextBuf::new();
        out.push_str(badge.as_str());
        out.push_ascii(' ');
        let target_painted = paint_target(target);
        out.push_str(target_painted.as_str());
        let ghost after_target = out.text@;
        match &visitor.message {
            Some(m) => {
                out.push_ascii(' ');
                out.push_str(m.as_str());
                assert(out.text@ =~= after_target + (seq![' '] + m@));
            },
            None => {
                assert(out.text@ =~= after_target + Seq::<char>::empty());
            },
        }
        out.push_ascii(' ');
        let fields = paint_fields(level, &visitor.other_fields);
        out.push_str(fields.as_str());
        assert(out.text@ =~= event_text(
            level,
            target@,
            match visitor.message {
                Some(m) => Some(m@),
                None => None,
            },
            text_entries(visitor.other_fields@),
        ));
        out.into_string()
    }
}

} // verus!
