//! Terminal colors for highlighted text.
use vstd::prelude::*;

use colored::Colorize;

verus! {

/// A foreground color of the terminal palette.
#[derive(PartialEq, Eq, Structural, Clone, Copy, Debug)]
pub enum Hue {
    BrightBlack,
    BrightBlue,
    BrightCyan,
    Yellow,
    Green,
    Blue,
    Magenta,
    Cyan,
}

/// How a piece of text is shown.
#[derive(PartialEq, Eq, Structural, Clone, Copy, Debug)]
pub enum Paint {
    /// As it is.
    Plain,
    /// In a color.
    Color(Hue),
    /// Bold, in bright cyan.
    BoldBrightCyan,
}

/// The SGR parameter of a foreground color.
pub open spec fn hue_code(h: Hue) -> Seq<char> {
    match h {
        Hue::BrightBlack => seq!['9', '0'],
        Hue::BrightBlue => seq!['9', '4'],
        Hue::BrightCyan => seq!['9', '6'],
        Hue::Yellow => seq!['3', '3'],
        Hue::Green => seq!['3', '2'],
        Hue::Blue => seq!['3', '4'],
        Hue::Magenta => seq!['3', '5'],
        Hue::Cyan => seq!['3', '6'],
    }
}

/// The SGR parameters of a paint: the bold style comes before the color.
pub open spec fn paint_code(p: Paint) -> Seq<char> {
    match p {
        Paint::Plain => Seq::empty(),
        Paint::Color(h) => hue_code(h),
        Paint::BoldBrightCyan => seq!['1', ';'] + hue_code(Hue::BrightCyan),
    }
}

/// The escape sequence that resets all attributes.
pub open spec fn ansi_reset() -> Seq<char> {
    seq!['\x1b', '[', '0', 'm']
}

/// The escape sequence that opens paint `p`.
pub open spec fn ansi_open(p: Paint) -> Seq<char> {
    seq!['\x1b', '['] + paint_code(p) + seq!['m']
}

/// `text` with `style` written again after every reset sequence in it, so
/// that a reset inside the text does not end the style.
pub open spec fn reopen(text: Seq<char>, style: Seq<char>) -> Seq<char>
    decreases text.len(),
{
    if text.len() == 0 {
        text
    } else if text.len() >= 4 && text.subrange(0, 4) == ansi_reset() {
        ansi_reset() + style + reopen(text.subrange(4, text.len() as int), style)
    } else {
        seq![text[0]] + reopen(text.subrange(1, text.len() as int), style)
    }
}

/// `text` wrapped in the escape sequences that paint it.
pub open spec fn ansi_wrap(p: Paint, text: Seq<char>) -> Seq<char> {
    ansi_open(p) + reopen(text, ansi_open(p)) + ansi_reset()
}

/// Whether `needle` occurs in `hay`.
pub open spec fn contains_seq(hay: Seq<char>, needle: Seq<char>) -> bool {
    exists|i: int| 0 <= i && i + needle.len() <= hay.len() && #[trigger] hay.subrange(i, i + needle.len()) == needle
}

/// Text without a reset sequence is written again unchanged.
pub proof fn lemma_reopen_plain(text: Seq<char>, style: Seq<char>)
    requires
        !contains_seq(text, ansi_reset()),
    ensures
        reopen(text, style) == text,
    decreases text.len(),
{
    if text.len() > 0 {
        if text.len() >= 4 && text.subrange(0, 4) == ansi_reset() {
            assert(text.subrange(0, 0 + ansi_reset().len() as int) == ansi_reset());
        }
        let rest = text.subrange(1, text.len() as int);
        assert forall|i: int|
            0 <= i && i + ansi_reset().len() <= rest.len() implies #[trigger] rest.subrange(
            i,
            i + ansi_reset().len(),
        ) != ansi_reset() by {
            assert(rest.subrange(i, i + 4) =~= text.subrange(i + 1, i + 1 + 4));
        }
        lemma_reopen_plain(rest, style);
        assert(seq![text[0]] + rest =~= text);
    }
}

/// Whether `out` is a rendering of `text` in paint `p`. Whether colors are
/// shown at all is decided by the environment (the terminal, `NO_COLOR`,
/// `CLICOLOR`, `CLICOLOR_FORCE`), so a colored piece is either the plain text
/// or the text wrapped in its escape sequences.
pub open spec fn painted(p: Paint, text: Seq<char>, out: Seq<char>) -> bool {
    match p {
        Paint::Plain => out == text,
        _ => out == text || out == ansi_wrap(p, text),
    }
}

/// The concatenation of `pieces`.
pub open spec fn concat(pieces: Seq<Seq<char>>) -> Seq<char>
    decreases pieces.len(),
{
    if pieces.len() == 0 {
        Seq::empty()
    } else {
        concat(pieces.drop_last()) + pieces.last()
    }
}

/// Whether `out` renders the segments `segs`: each text in its paint, one
/// after another.
pub open spec fn rendered(segs: Seq<(Paint, Seq<char>)>, out: Seq<char>) -> bool {
    exists|pieces: Seq<Seq<char>>|
        {
            &&& pieces.len() == segs.len()
            &&& forall|i: int|
                0 <= i < segs.len() ==> painted(segs[i].0, segs[i].1, #[trigger] pieces[i])
            &&& out == concat(pieces)
        }
}

/// The segments as the specification sees them.
pub open spec fn segment_views(segs: Seq<(Paint, String)>) -> Seq<(Paint, Seq<char>)> {
    segs.map_values(|g: (Paint, String)| (g.0, g.1@))
}

/// `Colorize::color` on `text`, rendered with `ToString::to_string`.
/// In `colored`, `Display` for `ColoredString` writes the input as it is when
/// the environment turns colors off, and otherwise writes `ESC [ code m`, the
/// input with `ESC [ code m` inserted after every inner `ESC [ 0 m`, and
/// `ESC [ 0 m`.
#[verifier::external_body]
fn color_text(text: &str, hue: Hue) -> (r: String)
    ensures
        painted(Paint::Color(hue), text@, r@),
{
    let color = match hue {
        Hue::BrightBlack => colored::Color::BrightBlack,
        Hue::BrightBlue => colored::Color::BrightBlue,
        Hue::BrightCyan => colored::Color::BrightCyan,
        Hue::Yellow => colored::Color::Yellow,
        Hue::Green => colored::Color::Green,
        Hue::Blue => colored::Color::Blue,
        Hue::Magenta => colored::Color::Magenta,
        Hue::Cyan => colored::Color::Cyan,
    };
    text.color(color).to_string()
}

/// `Colorize::bold` on a bright cyan `text`, rendered with `ToString::to_string`;
/// the bold style code `1` is written before the color code, as
/// `ColoredString::compute_style` orders them.
#[verifier::external_body]
fn bold_bright_cyan_text(text: &str) -> (r: String)
    ensures
        painted(Paint::BoldBrightCyan, text@, r@),
{
    text.bright_cyan().bold().to_string()
}

/// `text` rendered in paint `p`.
pub fn paint(text: &str, p: Paint) -> (r: String)
    ensures
        painted(p, text@, r@),
{
    match p {
        Paint::Plain => text.to_string(),
        Paint::Color(h) => color_text(text, h),
        Paint::BoldBrightCyan => bold_bright_cyan_text(text),
    }
}

/// Renders segments, each text in its paint, one after another.
pub fn render(segs: &Vec<(Paint, String)>) -> (r: String)
    ensures
        rendered(segment_views(segs@), r@),
{
    let ghost sv = segment_views(segs@);
    let ghost mut pieces: Seq<Seq<char>> = Seq::empty();
    let mut result = String::new();
    let mut i: usize = 0;
    while i < segs.len()
        invariant
            sv == segment_views(segs@),
            i <= segs@.len(),
            pieces.len() == i,
            forall|j: int| 0 <= j < i ==> painted(sv[j].0, sv[j].1, #[trigger] pieces[j]),
            result@ == concat(pieces),
        decreases segs@.len() - i,
    {
        let piece = paint(segs[i].1.as_str(), segs[i].0);
        proof {
            let old_pieces = pieces;
            pieces = pieces.push(piece@);
            assert(pieces.drop_last() =~= old_pieces);
            assert forall|j: int| 0 <= j < i + 1 implies painted(sv[j].0, sv[j].1, #[trigger] pieces[j]) by {
                if j < i {
                    assert(pieces[j] == old_pieces[j]);
                }
            }
        }
        crate::text::push_str(&mut result, piece.as_str());
        i = i + 1;
    }
    result
}

/// `s` without its escape sequences: from an `ESC` up to and including the
/// next `m`. `in_escape` tells whether `s` starts inside such a sequence.
pub open spec fn strip_from(s: Seq<char>, in_escape: bool) -> Seq<char>
    decreases s.len(),
{
    if s.len() == 0 {
        s
    } else {
        let c = s[0];
        let rest = s.subrange(1, s.len() as int);
        if in_escape {
            strip_from(rest, c != 'm')
        } else if c == '\x1b' {
            strip_from(rest, true)
        } else {
            seq![c] + strip_from(rest, false)
        }
    }
}

/// Whether reading `s` from state `in_escape` ends inside an escape sequence.
pub open spec fn ends_in_escape(s: Seq<char>, in_escape: bool) -> bool
    decreases s.len(),
{
    if s.len() == 0 {
        in_escape
    } else {
        let c = s[0];
        let rest = s.subrange(1, s.len() as int);
        if in_escape {
            ends_in_escape(rest, c != 'm')
        } else {
            ends_in_escape(rest, c == '\x1b')
        }
    }
}

/// `s` without its escape sequences.
pub open spec fn strip_ansi(s: Seq<char>) -> Seq<char> {
    strip_from(s, false)
}

/// The texts of segments.
pub open spec fn segment_texts(segs: Seq<(Paint, Seq<char>)>) -> Seq<Seq<char>> {
    segs.map_values(|g: (Paint, Seq<char>)| g.1)
}

proof fn lemma_strip_append(a: Seq<char>, b: Seq<char>, st: bool)
    ensures
        strip_from(a + b, st) == strip_from(a, st) + strip_from(b, ends_in_escape(a, st)),
        ends_in_escape(a + b, st) == ends_in_escape(b, ends_in_escape(a, st)),
    decreases a.len(),
{
    if a.len() == 0 {
        assert(a + b =~= b);
        assert(strip_from(a, st) =~= Seq::<char>::empty());
        assert(strip_from(a, st) + strip_from(b, st) =~= strip_from(b, st));
    } else {
        let rest = a.subrange(1, a.len() as int);
        assert((a + b).subrange(1, (a + b).len() as int) =~= rest + b);
        assert((a + b)[0] == a[0]);
        let c = a[0];
        let next = if st {
            c != 'm'
        } else {
            c == '\x1b'
        };
        lemma_strip_append(rest, b, next);
        if !st && c != '\x1b' {
            assert(seq![c] + strip_from(rest + b, false) =~= seq![c] + strip_from(rest, false)
                + strip_from(b, ends_in_escape(rest, false)));
        }
    }
}

/// Text without `ESC` is kept by stripping and leaves no sequence open.
proof fn lemma_strip_plain(t: Seq<char>)
    requires
        !t.contains('\x1b'),
    ensures
        strip_from(t, false) == t,
        !ends_in_escape(t, false),
    decreases t.len(),
{
    if t.len() > 0 {
        let rest = t.subrange(1, t.len() as int);
        assert(t[0] != '\x1b') by {
            if t[0] == '\x1b' {
                assert(t.contains(t[0]));
            }
        }
        assert(!rest.contains('\x1b')) by {
            if rest.contains('\x1b') {
                let j = choose|j: int| 0 <= j < rest.len() && rest[j] == '\x1b';
                assert(t[j + 1] == '\x1b');
            }
        }
        lemma_strip_plain(rest);
        assert(seq![t[0]] + rest =~= t);
    }
}

/// An escape sequence `ESC [ code m` whose code holds no `m` is stripped whole.
proof fn lemma_strip_escape(code: Seq<char>)
    requires
        !code.contains('m'),
    ensures
        strip_from(seq!['\x1b', '['] + code + seq!['m'], false) == Seq::<char>::empty(),
        !ends_in_escape(seq!['\x1b', '['] + code + seq!['m'], false),
{
    let e = seq!['\x1b', '['] + code + seq!['m'];
    assert(e.subrange(1, e.len() as int) =~= seq!['['] + code + seq!['m']);
    lemma_strip_in_escape(seq!['['] + code, seq!['m']);
    assert(seq!['['] + code + seq!['m'] =~= (seq!['['] + code) + seq!['m']);
}

/// Inside an escape sequence, text without `m` is dropped, and the `m` closes it.
proof fn lemma_strip_in_escape(a: Seq<char>, b: Seq<char>)
    requires
        !a.contains('m'),
        b == seq!['m'],
    ensures
        strip_from(a + b, true) == Seq::<char>::empty(),
        !ends_in_escape(a + b, true),
    decreases a.len(),
{
    if a.len() == 0 {
        assert(a + b =~= b);
        let r = b.subrange(1, 1);
        assert(r =~= Seq::<char>::empty());
        assert(strip_from(r, false) == r);
        assert(!ends_in_escape(r, false));
        assert(b[0] == 'm');
        assert(b.subrange(1, b.len() as int) == r);
    } else {
        assert((a + b)[0] == a[0]);
        let rest = a.subrange(1, a.len() as int);
        assert(a[0] != 'm') by {
            if a[0] == 'm' {
                assert(a.contains(a[0]));
            }
        }
        assert(!rest.contains('m')) by {
            if rest.contains('m') {
                let j = choose|j: int| 0 <= j < rest.len() && rest[j] == 'm';
                assert(a[j + 1] == 'm');
            }
        }
        assert((a + b).subrange(1, (a + b).len() as int) =~= rest + b);
        lemma_strip_in_escape(rest, b);
    }
}

/// A painted piece of text without `ESC` strips back to the text.
proof fn lemma_strip_piece(p: Paint, t: Seq<char>, piece: Seq<char>)
    requires
        painted(p, t, piece),
        !t.contains('\x1b'),
    ensures
        strip_from(piece, false) == t,
        !ends_in_escape(piece, false),
{
    lemma_strip_plain(t);
    if piece != t {
        assert(!contains_seq(t, ansi_reset())) by {
            if contains_seq(t, ansi_reset()) {
                let i = choose|i: int|
                    0 <= i && i + ansi_reset().len() <= t.len() && #[trigger] t.subrange(
                        i,
                        i + ansi_reset().len(),
                    ) == ansi_reset();
                assert(t.subrange(i, i + 4)[0] == '\x1b');
                assert(t.contains(t[i]));
            }
        }
        lemma_reopen_plain(t, ansi_open(p));
        let code = paint_code(p);
        assert(!code.contains('m')) by {
            if code.contains('m') {
                let j = choose|j: int| 0 <= j < code.len() && code[j] == 'm';
                assert(code[j] == 'm');
            }
        }
        lemma_strip_escape(code);
        assert(!seq!['0'].contains('m')) by {
            if seq!['0'].contains('m') {
                let j = choose|j: int| 0 <= j < 1 && seq!['0'][j] == 'm';
            }
        }
        lemma_strip_escape(seq!['0']);
        assert(ansi_reset() =~= seq!['\x1b', '['] + seq!['0'] + seq!['m']);
        let o = ansi_open(p);
        assert(piece == o + t + ansi_reset());
        lemma_strip_append(o, t + ansi_reset(), false);
        lemma_strip_append(t, ansi_reset(), false);
        assert(o + t + ansi_reset() =~= o + (t + ansi_reset()));
        assert(strip_from(t, false) + Seq::<char>::empty() =~= t);
    }
}

/// Removing the escape sequences from rendered segments gives back their
/// texts, one after another, when no text holds an `ESC`: painting only adds
/// escape sequences.
pub proof fn law_strip_rendered(segs: Seq<(Paint, Seq<char>)>, out: Seq<char>)
    requires
        rendered(segs, out),
        forall|i: int| 0 <= i < segs.len() ==> !(#[trigger] segs[i]).1.contains('\x1b'),
    ensures
        strip_ansi(out) == concat(segment_texts(segs)),
{
    let pieces = choose|pieces: Seq<Seq<char>>|
        {
            &&& pieces.len() == segs.len()
            &&& forall|i: int|
                0 <= i < segs.len() ==> painted(segs[i].0, segs[i].1, #[trigger] pieces[i])
            &&& out == concat(pieces)
        };
    lemma_strip_pieces(segs, pieces);
}

proof fn lemma_strip_pieces(segs: Seq<(Paint, Seq<char>)>, pieces: Seq<Seq<char>>)
    requires
        pieces.len() == segs.len(),
        forall|i: int|
            0 <= i < segs.len() ==> painted(segs[i].0, segs[i].1, #[trigger] pieces[i]),
        forall|i: int| 0 <= i < segs.len() ==> !(#[trigger] segs[i]).1.contains('\x1b'),
    ensures
        strip_from(concat(pieces), false) == concat(segment_texts(segs)),
        !ends_in_escape(concat(pieces), false),
    decreases pieces.len(),
{
    if pieces.len() == 0 {
        assert(concat(segment_texts(segs)) =~= Seq::<char>::empty());
        assert(strip_from(concat(pieces), false) =~= Seq::<char>::empty());
    } else {
        let n = pieces.len() - 1;
        let d = pieces.drop_last();
        let ds = segs.drop_last();
        assert forall|i: int| 0 <= i < ds.len() implies painted(ds[i].0, ds[i].1, #[trigger] d[i]) by {
            assert(ds[i] == segs[i]);
            assert(d[i] == pieces[i]);
            assert(painted(segs[i].0, segs[i].1, pieces[i]));
        }
        assert forall|i: int| 0 <= i < ds.len() implies !(#[trigger] ds[i]).1.contains('\x1b') by {
            assert(ds[i] == segs[i]);
            assert(!segs[i].1.contains('\x1b'));
        }
        lemma_strip_pieces(ds, d);
        assert(painted(segs[n].0, segs[n].1, pieces[n]));
        assert(!segs[n].1.contains('\x1b'));
        lemma_strip_piece(segs[n].0, segs[n].1, pieces[n]);
        lemma_strip_append(concat(d), pieces[n], false);
        assert(segment_texts(segs).drop_last() =~= segment_texts(ds));
        assert(segment_texts(segs).last() == segs[n].1);
    }
}

/// A character that the concatenation of `pieces` lacks, each piece lacks.
pub proof fn lemma_concat_parts_lack(pieces: Seq<Seq<char>>, c: char)
    requires
        !concat(pieces).contains(c),
    ensures
        forall|i: int| 0 <= i < pieces.len() ==> !(#[trigger] pieces[i]).contains(c),
    decreases pieces.len(),
{
    if pieces.len() > 0 {
        let d = pieces.drop_last();
        let l = pieces.last();
        let whole = concat(d) + l;
        assert(concat(pieces) == whole);
        assert(!concat(d).contains(c)) by {
            if concat(d).contains(c) {
                let j = choose|j: int| 0 <= j < concat(d).len() && concat(d)[j] == c;
                assert(whole[j] == c);
                assert(whole.contains(c));
            }
        }
        assert(!l.contains(c)) by {
            if l.contains(c) {
                let j = choose|j: int| 0 <= j < l.len() && l[j] == c;
                assert(whole[concat(d).len() + j] == c);
                assert(whole.contains(c));
            }
        }
        lemma_concat_parts_lack(d, c);
        assert forall|i: int| 0 <= i < pieces.len() implies !(#[trigger] pieces[i]).contains(c) by {
            if i < d.len() {
                assert(pieces[i] == d[i]);
            }
        }
    }
}

} // verus!
