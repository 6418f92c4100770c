//! How a wallpaper is fitted to the screen and aligned on it.

use vstd::prelude::*;
use vstd::string::*;

use crate::text::{
    ascii_lower_chars, ascii_lower_seq, ascii_upper_seq, append_str, is_unicode_whitespace,
    lemma_lower_of_upper, next_word, range_eq_str, word_len, words,
};

verus! {

/// How the picture fills the screen.
#[derive(Clone, Copy, Debug, PartialEq, Eq, Hash, Structural)]
pub enum FitMode {
    Cover,
    Contain,
    Stretch,
}

/// Where the picture sticks horizontally.
#[derive(Clone, Copy, Debug, PartialEq, Eq, Hash, Structural)]
pub enum AlignX {
    Left,
    Center,
    Right,
}

/// Where the picture sticks vertically.
#[derive(Clone, Copy, Debug, PartialEq, Eq, Hash, Structural)]
pub enum AlignY {
    Top,
    Center,
    Bottom,
}

/// A display mode that could not be parsed.
#[derive(Debug)]
pub struct DisplayModeParseError;

impl DisplayModeParseError {
    /// The text shown to the user.
    pub fn to_display_string(&self) -> (s: String)
        ensures
            s@ == "DisplayModeParseError"@,
    {
        String::from_str("DisplayModeParseError")
    }
}

/// A wallpaper's display mode.
#[derive(Clone, Copy, Debug, PartialEq, Eq, Hash, Structural)]
pub struct DisplayMode {
    pub fit_mode: FitMode,
    pub align_x: AlignX,
    pub align_y: AlignY,
}

/// The default mode: centered and covering the screen.
pub open spec fn default_mode() -> DisplayMode {
    DisplayMode { fit_mode: FitMode::Cover, align_x: AlignX::Center, align_y: AlignY::Center }
}

/// The mode after one lower-cased word of a mode description, or `None` for
/// a word that is not a mode word. `center` changes nothing.
pub open spec fn apply_mode_word(mode: DisplayMode, word: Seq<char>) -> Option<DisplayMode> {
    if word == "cover"@ {
        Some(DisplayMode { fit_mode: FitMode::Cover, ..mode })
    } else if word == "contain"@ {
        Some(DisplayMode { fit_mode: FitMode::Contain, ..mode })
    } else if word == "stretch"@ {
        Some(DisplayMode { fit_mode: FitMode::Stretch, ..mode })
    } else if word == "left"@ {
        Some(DisplayMode { align_x: AlignX::Left, ..mode })
    } else if word == "right"@ {
        Some(DisplayMode { align_x: AlignX::Right, ..mode })
    } else if word == "top"@ {
        Some(DisplayMode { align_y: AlignY::Top, ..mode })
    } else if word == "bottom"@ {
        Some(DisplayMode { align_y: AlignY::Bottom, ..mode })
    } else if word == "center"@ {
        Some(mode)
    } else {
        None
    }
}

/// The mode after the words `ws`, applied in order to `mode`.
pub open spec fn apply_mode_words(mode: DisplayMode, ws: Seq<Seq<char>>) -> Option<DisplayMode>
    decreases ws.len(),
{
    if ws.len() == 0 {
        Some(mode)
    } else {
        match apply_mode_word(mode, ws[0]) {
            None => None,
            Some(next) => apply_mode_words(next, ws.drop_first()),
        }
    }
}

/// The mode a description names: its words, ASCII-lower-cased, applied to
/// the default mode; `None` when a word is not a mode word.
pub open spec fn parse_mode_spec(s: Seq<char>) -> Option<DisplayMode> {
    apply_mode_words(default_mode(), words(ascii_lower_seq(s)))
}

/// The lower-case name of a fit mode.
pub open spec fn fit_name(f: FitMode) -> Seq<char> {
    match f {
        FitMode::Cover => "cover"@,
        FitMode::Contain => "contain"@,
        FitMode::Stretch => "stretch"@,
    }
}

/// The lower-case name of a horizontal alignment.
pub open spec fn align_x_name(a: AlignX) -> Seq<char> {
    match a {
        AlignX::Left => "left"@,
        AlignX::Center => "center"@,
        AlignX::Right => "right"@,
    }
}

/// The lower-case name of a vertical alignment.
pub open spec fn align_y_name(a: AlignY) -> Seq<char> {
    match a {
        AlignY::Top => "top"@,
        AlignY::Center => "center"@,
        AlignY::Bottom => "bottom"@,
    }
}

/// How a mode is shown: `cover center` when centered both ways, else the fit
/// mode and both alignments, such as `contain left top`.
pub open spec fn mode_display(m: DisplayMode) -> Seq<char> {
    if m.align_x == AlignX::Center && m.align_y == AlignY::Center {
        fit_name(m.fit_mode) + " center"@
    } else {
        fit_name(m.fit_mode) + " "@ + align_x_name(m.align_x) + " "@ + align_y_name(m.align_y)
    }
}

fn fit_name_exec(f: FitMode) -> (s: &'static str)
    ensures
        s@ == fit_name(f),
{
    match f {
        FitMode::Cover => "cover",
        FitMode::Contain => "contain",
        FitMode::Stretch => "stretch",
    }
}

fn align_x_name_exec(a: AlignX) -> (s: &'static str)
    ensures
        s@ == align_x_name(a),
{
    match a {
        AlignX::Left => "left",
        AlignX::Center => "center",
        AlignX::Right => "right",
    }
}

fn align_y_name_exec(a: AlignY) -> (s: &'static str)
    ensures
        s@ == align_y_name(a),
{
    match a {
        AlignY::Top => "top",
        AlignY::Center => "center",
        AlignY::Bottom => "bottom",
    }
}

/// Applies one word `cs[a..b]` to `mode`.
fn apply_word_exec(mode: DisplayMode, cs: &Vec<char>, a: usize, b: usize) -> (res: Option<
    DisplayMode,
>)
    requires
        a <= b <= cs@.len(),
    ensures
        res == apply_mode_word(mode, cs@.subrange(a as int, b as int)),
{
    if range_eq_str(cs, a, b, "cover") {
        Some(DisplayMode { fit_mode: FitMode::Cover, ..mode })
    } else if range_eq_str(cs, a, b, "contain") {
        Some(DisplayMode { fit_mode: FitMode::Contain, ..mode })
    } else if range_eq_str(cs, a, b, "stretch") {
        Some(DisplayMode { fit_mode: FitMode::Stretch, ..mode })
    } else if range_eq_str(cs, a, b, "left") {
        Some(DisplayMode { align_x: AlignX::Left, ..mode })
    } else if range_eq_str(cs, a, b, "right") {
        Some(DisplayMode { align_x: AlignX::Right, ..mode })
    } else if range_eq_str(cs, a, b, "top") {
        Some(DisplayMode { align_y: AlignY::Top, ..mode })
    } else if range_eq_str(cs, a, b, "bottom") {
        Some(DisplayMode { align_y: AlignY::Bottom, ..mode })
    } else if range_eq_str(cs, a, b, "center") {
        Some(mode)
    } else {
        None
    }
}

impl DisplayMode {
    /// The default mode: `cover`, centered both ways.
    pub fn new() -> (m: Self)
        ensures
            m == default_mode(),
    {
        DisplayMode { fit_mode: FitMode::Cover, align_x: AlignX::Center, align_y: AlignY::Center }
    }

    /// A mode with the given parts.
    pub fn new_with_fields(fit_mode: FitMode, align_x: AlignX, align_y: AlignY) -> (m: Self)
        ensures
            m == (DisplayMode { fit_mode, align_x, align_y }),
    {
        DisplayMode { fit_mode, align_x, align_y }
    }

    /// Whether this is the default mode.
    pub fn is_default(&self) -> (b: bool)
        ensures
            b == (*self == default_mode()),
    {
        self.fit_mode == FitMode::Cover && self.align_x == AlignX::Center && self.align_y
            == AlignY::Center
    }

    /// This mode with another fit mode.
    pub fn fit_mode(self, fit_mode: FitMode) -> (m: Self)
        ensures
            m == (DisplayMode { fit_mode, ..self }),
    {
        DisplayMode { fit_mode, ..self }
    }

    /// This mode with another horizontal alignment.
    pub fn align_x(self, align_x: AlignX) -> (m: Self)
        ensures
            m == (DisplayMode { align_x, ..self }),
    {
        DisplayMode { align_x, ..self }
    }

    /// This mode with another vertical alignment.
    pub fn align_y(self, align_y: AlignY) -> (m: Self)
        ensures
            m == (DisplayMode { align_y, ..self }),
    {
        DisplayMode { align_y, ..self }
    }

    /// How the mode is shown to the user.
    pub fn to_display_string(&self) -> (s: String)
        ensures
            s@ == mode_display(*self),
    {
        let mut s = String::from_str(fit_name_exec(self.fit_mode));
        if self.align_x == AlignX::Center && self.align_y == AlignY::Center {
            append_str(&mut s, " center");
        } else {
            append_str(&mut s, " ");
            append_str(&mut s, align_x_name_exec(self.align_x));
            append_str(&mut s, " ");
            append_str(&mut s, align_y_name_exec(self.align_y));
        }
        s
    }

    /// Parses a description such as `"Contain  top"`: the words, in any case,
    /// each set one part of the default mode; a later word overrides an
    /// earlier one.
    pub fn parse(s: &str) -> (res: Result<DisplayMode, DisplayModeParseError>)
        ensures
            match parse_mode_spec(s@) {
                Some(m) => res == Ok::<DisplayMode, DisplayModeParseError>(m),
                None => res is Err,
            },
    {
        let cs = ascii_lower_chars(s);
        let mut mode = DisplayMode::new();
        let mut i: usize = 0;
        assert(cs@.skip(0) == cs@);
        loop
            invariant
                i <= cs@.len(),
                parse_mode_spec(s@) == apply_mode_words(mode, words(cs@.skip(i as int))),
            decreases cs@.len() - i,
        {
            match next_word(&cs, i) {
                None => {
                    return Ok(mode);
                },
                Some((a, b)) => {
                    let ghost ws = words(cs@.skip(i as int));
                    assert(ws[0] == cs@.subrange(a as int, b as int));
                    assert(ws.drop_first() == words(cs@.skip(b as int)));
                    match apply_word_exec(mode, &cs, a, b) {
                        None => {
                            return Err(DisplayModeParseError);
                        },
                        Some(next) => {
                            mode = next;
                            i = b;
                        },
                    }
                },
            }
        }
    }
}

impl core::str::FromStr for DisplayMode {
    type Err = DisplayModeParseError;

    fn from_str(s: &str) -> (res: Result<Self, Self::Err>)
        ensures
            match parse_mode_spec(s@) {
                Some(m) => res == Ok::<DisplayMode, DisplayModeParseError>(m),
                None => res is Err,
            },
    {
        DisplayMode::parse(s)
    }
}

/// A word of lower-case ASCII letters.
pub open spec fn lower_word(w: Seq<char>) -> bool {
    w.len() > 0 && forall|i: int| 0 <= i < w.len() ==> 'a' <= #[trigger] w[i] <= 'z'
}

proof fn lemma_word_len_prefix(w: Seq<char>, rest: Seq<char>)
    requires
        forall|i: int| 0 <= i < w.len() ==> 'a' <= #[trigger] w[i] <= 'z',
    ensures
        word_len(w + rest) == w.len() + word_len(rest),
    decreases w.len(),
{
    if w.len() > 0 {
        let t = w.drop_first();
        assert forall|i: int| 0 <= i < t.len() implies 'a' <= #[trigger] t[i] <= 'z' by {
            assert(t[i] == w[i + 1]);
        }
        lemma_word_len_prefix(t, rest);
        assert((w + rest).drop_first() =~= t + rest);
        assert((w + rest)[0] == w[0]);
    } else {
        assert(w + rest =~= rest);
    }
}

proof fn lemma_words_cons(w: Seq<char>, rest: Seq<char>)
    requires
        lower_word(w),
        rest.len() > 0,
        rest[0] == ' ',
    ensures
        words(w + rest) == seq![w] + words(rest.drop_first()),
{
    lemma_word_len_prefix(w, rest);
    let s = w + rest;
    assert(s[0] == w[0]);
    assert('a' <= w[0] <= 'z');
    assert(!is_unicode_whitespace(s[0]));
    assert(is_unicode_whitespace(rest[0]));
    assert(word_len(rest) == 0);
    assert(word_len(s) == w.len());
    assert(s.take(w.len() as int) =~= w);
    assert(s.skip(w.len() as int) =~= rest);
    assert(words(s) == seq![s.take(word_len(s) as int)] + words(s.skip(word_len(s) as int)));
    assert(words(rest) == words(rest.drop_first()));
}

proof fn lemma_words_single(w: Seq<char>)
    requires
        lower_word(w),
    ensures
        words(w) == seq![w],
{
    lemma_word_len_prefix(w, Seq::empty());
    assert(w + Seq::<char>::empty() =~= w);
    assert('a' <= w[0] <= 'z');
    assert(!is_unicode_whitespace(w[0]));
    assert(word_len(w) == w.len());
    assert(w.take(w.len() as int) =~= w);
    assert(w.skip(w.len() as int) =~= Seq::<char>::empty());
    assert(words(w) == seq![w.take(word_len(w) as int)] + words(w.skip(word_len(w) as int)));
    assert(words(Seq::<char>::empty()) == Seq::<Seq<char>>::empty());
    assert(seq![w] + Seq::<Seq<char>>::empty() =~= seq![w]);
}

proof fn lemma_lower_names(m: DisplayMode)
    ensures
        lower_word(fit_name(m.fit_mode)),
        lower_word(align_x_name(m.align_x)),
        lower_word(align_y_name(m.align_y)),
        lower_word("center"@),
        " center"@ == seq![' '] + "center"@,
        " "@ == seq![' '],
{
    reveal_strlit("cover");
    reveal_strlit("contain");
    reveal_strlit("stretch");
    reveal_strlit("left");
    reveal_strlit("center");
    reveal_strlit("right");
    reveal_strlit("top");
    reveal_strlit("bottom");
    reveal_strlit(" center");
    reveal_strlit(" ");
    assert(" center"@ =~= seq![' '] + "center"@);
}

proof fn lemma_ascii_lower_letters(s: Seq<char>)
    requires
        forall|i: int| 0 <= i < s.len() ==> ('a' <= #[trigger] s[i] <= 'z' || s[i] == ' '),
    ensures
        ascii_lower_seq(s) == s,
{
    assert(ascii_lower_seq(s) =~= s);
}

proof fn lemma_join_words2(a: Seq<char>, b: Seq<char>)
    requires
        lower_word(a),
        lower_word(b),
    ensures
        parse_mode_spec(a + " "@ + b) == apply_mode_words(default_mode(), seq![a, b]),
{
    reveal_strlit(" ");
    let tail = seq![' '] + b;
    let t = a + " "@ + b;
    assert(t =~= a + tail);
    assert forall|i: int| 0 <= i < t.len() implies ('a' <= #[trigger] t[i] <= 'z' || t[i] == ' ') by {
        if i < a.len() {
            assert(t[i] == a[i]);
        } else if i > a.len() {
            assert(t[i] == b[i - a.len() - 1]);
        }
    }
    lemma_ascii_lower_letters(t);
    lemma_words_cons(a, tail);
    assert(tail.drop_first() =~= b);
    lemma_words_single(b);
    assert(words(t) =~= seq![a, b]);
}

proof fn lemma_join_words3(a: Seq<char>, b: Seq<char>, c: Seq<char>)
    requires
        lower_word(a),
        lower_word(b),
        lower_word(c),
    ensures
        parse_mode_spec(a + " "@ + b + " "@ + c) == apply_mode_words(default_mode(), seq![a, b, c]),
{
    reveal_strlit(" ");
    let inner = b + (seq![' '] + c);
    let tail = seq![' '] + inner;
    let t = a + " "@ + b + " "@ + c;
    assert(t =~= a + tail);
    assert forall|i: int| 0 <= i < t.len() implies ('a' <= #[trigger] t[i] <= 'z' || t[i] == ' ') by {
        if i < a.len() {
            assert(t[i] == a[i]);
        } else if a.len() < i < a.len() + 1 + b.len() {
            assert(t[i] == b[i - a.len() - 1]);
        } else if i > a.len() + 1 + b.len() {
            assert(t[i] == c[i - a.len() - 2 - b.len()]);
        }
    }
    lemma_ascii_lower_letters(t);
    lemma_words_cons(a, tail);
    assert(tail.drop_first() =~= inner);
    lemma_words_cons(b, seq![' '] + c);
    assert((seq![' '] + c).drop_first() =~= c);
    lemma_words_single(c);
    assert(words(t) =~= seq![a, b, c]);
}

proof fn lemma_apply_words2(m: DisplayMode, a: Seq<char>, b: Seq<char>)
    ensures
        apply_mode_words(m, seq![a, b]) == match apply_mode_word(m, a) {
            None => None,
            Some(m1) => apply_mode_word(m1, b),
        },
{
    let s = seq![a, b];
    let t = seq![b];
    let e = Seq::<Seq<char>>::empty();
    assert(s[0] == a);
    assert(s.drop_first() =~= t);
    assert(t[0] == b);
    assert(t.drop_first() =~= e);
    assert forall|k: DisplayMode| apply_mode_words(k, e) == Some(k) by {}
    assert forall|k: DisplayMode| #[trigger] apply_mode_words(k, t) == match apply_mode_word(k, b) {
        None => None,
        Some(k2) => apply_mode_words(k2, e),
    } by {}
    assert(apply_mode_words(m, s) == match apply_mode_word(m, a) {
        None => None,
        Some(m1) => apply_mode_words(m1, t),
    });
}

proof fn lemma_apply_words3(m: DisplayMode, a: Seq<char>, b: Seq<char>, c: Seq<char>)
    ensures
        apply_mode_words(m, seq![a, b, c]) == match apply_mode_word(m, a) {
            None => None,
            Some(m1) => apply_mode_words(m1, seq![b, c]),
        },
{
    let s = seq![a, b, c];
    assert(s[0] == a);
    assert(s.drop_first() =~= seq![b, c]);
}

/// The fit word `w` names `f`, as the mode descriptions write it.
pub open spec fn names_fit(w: Seq<char>, f: FitMode) -> bool {
    ||| (w == "cover"@ && f == FitMode::Cover)
    ||| (w == "contain"@ && f == FitMode::Contain)
    ||| (w == "stretch"@ && f == FitMode::Stretch)
}

/// The horizontal word `w` names `x`.
pub open spec fn names_align_x(w: Seq<char>, x: AlignX) -> bool {
    ||| (w == "left"@ && x == AlignX::Left)
    ||| (w == "center"@ && x == AlignX::Center)
    ||| (w == "right"@ && x == AlignX::Right)
}

/// The vertical word `w` names `y`.
pub open spec fn names_align_y(w: Seq<char>, y: AlignY) -> bool {
    ||| (w == "top"@ && y == AlignY::Top)
    ||| (w == "center"@ && y == AlignY::Center)
    ||| (w == "bottom"@ && y == AlignY::Bottom)
}

proof fn lemma_mode_words_distinct()
    ensures
        "cover"@ != "contain"@,
        "cover"@ != "stretch"@,
        "cover"@ != "left"@,
        "cover"@ != "center"@,
        "cover"@ != "right"@,
        "cover"@ != "top"@,
        "cover"@ != "bottom"@,
        "contain"@ != "stretch"@,
        "contain"@ != "left"@,
        "contain"@ != "center"@,
        "contain"@ != "right"@,
        "contain"@ != "top"@,
        "contain"@ != "bottom"@,
        "stretch"@ != "left"@,
        "stretch"@ != "center"@,
        "stretch"@ != "right"@,
        "stretch"@ != "top"@,
        "stretch"@ != "bottom"@,
        "left"@ != "center"@,
        "left"@ != "right"@,
        "left"@ != "top"@,
        "left"@ != "bottom"@,
        "center"@ != "right"@,
        "center"@ != "top"@,
        "center"@ != "bottom"@,
        "right"@ != "top"@,
        "right"@ != "bottom"@,
        "top"@ != "bottom"@,
{
    reveal_strlit("cover");
    reveal_strlit("contain");
    reveal_strlit("stretch");
    reveal_strlit("left");
    reveal_strlit("center");
    reveal_strlit("right");
    reveal_strlit("top");
    reveal_strlit("bottom");
    assert("cover"@.len() == 5 && "cover"@[0] == 'c');
    assert("contain"@.len() == 7 && "contain"@[0] == 'c');
    assert("stretch"@.len() == 7 && "stretch"@[0] == 's');
    assert("left"@.len() == 4 && "left"@[0] == 'l');
    assert("center"@.len() == 6 && "center"@[0] == 'c');
    assert("right"@.len() == 5 && "right"@[0] == 'r');
    assert("top"@.len() == 3 && "top"@[0] == 't');
    assert("bottom"@.len() == 6 && "bottom"@[0] == 'b');
}

proof fn lemma_part_words(
    m: DisplayMode,
    fw: Seq<char>,
    f: FitMode,
    xw: Seq<char>,
    x: AlignX,
    yw: Seq<char>,
    y: AlignY,
)
    requires
        names_fit(fw, f),
        names_align_x(xw, x),
        names_align_y(yw, y),
    ensures
        lower_word(fw),
        lower_word(xw),
        lower_word(yw),
        apply_mode_word(m, fw) == Some(DisplayMode { fit_mode: f, ..m }),
        xw == "center"@ ==> apply_mode_word(m, xw) == Some(m),
        xw != "center"@ ==> apply_mode_word(m, xw) == Some(DisplayMode { align_x: x, ..m }),
        yw == "center"@ ==> apply_mode_word(m, yw) == Some(m),
        yw != "center"@ ==> apply_mode_word(m, yw) == Some(DisplayMode { align_y: y, ..m }),
        x == AlignX::Center <==> xw == "center"@,
        y == AlignY::Center <==> yw == "center"@,
{
    lemma_mode_words_distinct();
    reveal_strlit("cover");
    reveal_strlit("contain");
    reveal_strlit("stretch");
    reveal_strlit("left");
    reveal_strlit("center");
    reveal_strlit("right");
    reveal_strlit("top");
    reveal_strlit("bottom");
}

/// Each word of a mode description sets its own part and leaves the others
/// as they are, so the words can be written in any order: the fit word, the
/// horizontal word and the vertical word, in each of their six orders, give
/// the mode made of those three parts; and two of them, in either order,
/// give those two parts with the third centered (or covering, for the
/// fit). `top contain` is `contain top`: contained and shifted up.
pub proof fn mode_words_in_any_order(
    fw: Seq<char>,
    f: FitMode,
    xw: Seq<char>,
    x: AlignX,
    yw: Seq<char>,
    y: AlignY,
)
    requires
        names_fit(fw, f),
        names_align_x(xw, x),
        names_align_y(yw, y),
    ensures
        parse_mode_spec(fw + " "@ + xw + " "@ + yw) == Some(
            DisplayMode { fit_mode: f, align_x: x, align_y: y },
        ),
        parse_mode_spec(fw + " "@ + yw + " "@ + xw) == Some(
            DisplayMode { fit_mode: f, align_x: x, align_y: y },
        ),
        parse_mode_spec(xw + " "@ + fw + " "@ + yw) == Some(
            DisplayMode { fit_mode: f, align_x: x, align_y: y },
        ),
        parse_mode_spec(xw + " "@ + yw + " "@ + fw) == Some(
            DisplayMode { fit_mode: f, align_x: x, align_y: y },
        ),
        parse_mode_spec(yw + " "@ + fw + " "@ + xw) == Some(
            DisplayMode { fit_mode: f, align_x: x, align_y: y },
        ),
        parse_mode_spec(yw + " "@ + xw + " "@ + fw) == Some(
            DisplayMode { fit_mode: f, align_x: x, align_y: y },
        ),
        parse_mode_spec(fw + " "@ + yw) == Some(
            DisplayMode { fit_mode: f, align_x: AlignX::Center, align_y: y },
        ),
        parse_mode_spec(yw + " "@ + fw) == Some(
            DisplayMode { fit_mode: f, align_x: AlignX::Center, align_y: y },
        ),
        parse_mode_spec(fw + " "@ + xw) == Some(
            DisplayMode { fit_mode: f, align_x: x, align_y: AlignY::Center },
        ),
        parse_mode_spec(xw + " "@ + fw) == Some(
            DisplayMode { fit_mode: f, align_x: x, align_y: AlignY::Center },
        ),
        parse_mode_spec(xw + " "@ + yw) == Some(
            DisplayMode { fit_mode: FitMode::Cover, align_x: x, align_y: y },
        ),
        parse_mode_spec(yw + " "@ + xw) == Some(
            DisplayMode { fit_mode: FitMode::Cover, align_x: x, align_y: y },
        ),
{
    let d = default_mode();
    assert forall|m: DisplayMode| #![auto]
        apply_mode_word(m, fw) == Some(DisplayMode { fit_mode: f, ..m })
        && (xw == "center"@ ==> apply_mode_word(m, xw) == Some(m))
        && (xw != "center"@ ==> apply_mode_word(m, xw) == Some(DisplayMode { align_x: x, ..m }))
        && (yw == "center"@ ==> apply_mode_word(m, yw) == Some(m))
        && (yw != "center"@ ==> apply_mode_word(m, yw) == Some(DisplayMode { align_y: y, ..m })) by {
        lemma_part_words(m, fw, f, xw, x, yw, y);
    }
    lemma_part_words(d, fw, f, xw, x, yw, y);
    lemma_join_words3(fw, xw, yw);
    lemma_join_words3(fw, yw, xw);
    lemma_join_words3(xw, fw, yw);
    lemma_join_words3(xw, yw, fw);
    lemma_join_words3(yw, fw, xw);
    lemma_join_words3(yw, xw, fw);
    lemma_join_words2(fw, yw);
    lemma_join_words2(yw, fw);
    lemma_join_words2(fw, xw);
    lemma_join_words2(xw, fw);
    lemma_join_words2(xw, yw);
    lemma_join_words2(yw, xw);
    let mf = DisplayMode { fit_mode: f, ..d };
    let mx = DisplayMode { align_x: x, ..d };
    let my = DisplayMode { align_y: y, ..d };
    lemma_apply_words3(d, fw, xw, yw);
    lemma_apply_words2(mf, xw, yw);
    lemma_apply_words3(d, fw, yw, xw);
    lemma_apply_words2(mf, yw, xw);
    lemma_apply_words3(d, xw, fw, yw);
    lemma_apply_words2(mx, fw, yw);
    lemma_apply_words3(d, xw, yw, fw);
    lemma_apply_words2(mx, yw, fw);
    lemma_apply_words3(d, yw, fw, xw);
    lemma_apply_words2(my, fw, xw);
    lemma_apply_words3(d, yw, xw, fw);
    lemma_apply_words2(my, xw, fw);
    lemma_apply_words2(d, fw, yw);
    lemma_apply_words2(d, yw, fw);
    lemma_apply_words2(d, fw, xw);
    lemma_apply_words2(d, xw, fw);
    lemma_apply_words2(d, xw, yw);
    lemma_apply_words2(d, yw, xw);
}

/// Parsing ignores ASCII case: a text that, lower-cased, is how `m` is
/// shown parses to `m`; in particular the upper-cased text does.
pub proof fn mode_parse_ignores_case(m: DisplayMode, s: Seq<char>)
    requires
        ascii_lower_seq(s) == mode_display(m),
    ensures
        parse_mode_spec(s) == Some(m),
        parse_mode_spec(ascii_upper_seq(mode_display(m))) == Some(m),
{
    mode_display_parses_back(m);
    lemma_lower_names(m);
    let d = mode_display(m);
    reveal_strlit("center");
    reveal_strlit(" center");
    reveal_strlit(" ");
    assert forall|i: int| 0 <= i < d.len() implies ('a' <= #[trigger] d[i] <= 'z' || d[i] == ' ') by {
        lemma_display_chars(m, i);
    }
    lemma_ascii_lower_letters(d);
    lemma_lower_of_upper(d);
}

proof fn lemma_display_chars(m: DisplayMode, i: int)
    requires
        0 <= i < mode_display(m).len(),
    ensures
        'a' <= mode_display(m)[i] <= 'z' || mode_display(m)[i] == ' ',
{
    lemma_lower_names(m);
    let f = fit_name(m.fit_mode);
    let x = align_x_name(m.align_x);
    let y = align_y_name(m.align_y);
    let d = mode_display(m);
    if m.align_x == AlignX::Center && m.align_y == AlignY::Center {
        let c = "center"@;
        assert(d =~= f + (seq![' '] + c));
        if i < f.len() {
            assert(d[i] == f[i]);
        } else if i > f.len() {
            assert(d[i] == c[i - f.len() - 1]);
        }
    } else {
        let tail = seq![' '] + y;
        let mid = seq![' '] + x + tail;
        assert(d =~= f + mid);
        if i < f.len() {
            assert(d[i] == f[i]);
        } else if i == f.len() {
        } else if i < f.len() + 1 + x.len() {
            assert(d[i] == x[i - f.len() - 1]);
        } else if i == f.len() + 1 + x.len() {
        } else {
            assert(d[i] == y[i - f.len() - 2 - x.len()]);
        }
    }
}

/// A mode, shown and read back, is the same mode: parsing `mode_display(m)`
/// gives `m`.
pub proof fn mode_display_parses_back(m: DisplayMode)
    ensures
        parse_mode_spec(mode_display(m)) == Some(m),
{
    lemma_lower_names(m);
    reveal_strlit("cover");
    reveal_strlit("contain");
    reveal_strlit("stretch");
    reveal_strlit("left");
    reveal_strlit("center");
    reveal_strlit("right");
    reveal_strlit("top");
    reveal_strlit("bottom");
    let f = fit_name(m.fit_mode);
    let after_fit = DisplayMode { fit_mode: m.fit_mode, ..default_mode() };
    assert(apply_mode_word(default_mode(), f) == Some(after_fit));
    let x = align_x_name(m.align_x);
    let y = align_y_name(m.align_y);
    let d = mode_display(m);
    if m.align_x == AlignX::Center && m.align_y == AlignY::Center {
        let c = "center"@;
        assert(d =~= f + (seq![' '] + c));
        assert forall|i: int| 0 <= i < d.len() implies ('a' <= #[trigger] d[i] <= 'z' || d[i] == ' ') by {
            if i < f.len() {
                assert(d[i] == f[i]);
            } else if i > f.len() {
                assert(d[i] == c[i - f.len() - 1]);
            }
        }
        lemma_ascii_lower_letters(d);
        lemma_words_cons(f, seq![' '] + c);
        assert((seq![' '] + c).drop_first() =~= c);
        lemma_words_single(c);
        assert(words(d) =~= seq![f, c]);
        assert(seq![f, c].drop_first() =~= seq![c]);
        assert(seq![c].drop_first() =~= Seq::<Seq<char>>::empty());
        assert(apply_mode_word(after_fit, c) == Some(after_fit));
        assert(after_fit == m);
        assert(apply_mode_words(after_fit, seq![c]) == Some(m));
    } else {
        let tail = seq![' '] + y;
        let mid = seq![' '] + x + tail;
        assert(d =~= f + mid);
        assert forall|i: int| 0 <= i < d.len() implies ('a' <= #[trigger] d[i] <= 'z' || d[i] == ' ') by {
            if i < f.len() {
                assert(d[i] == f[i]);
            } else if i == f.len() {
            } else if i < f.len() + 1 + x.len() {
                assert(d[i] == x[i - f.len() - 1]);
            } else if i == f.len() + 1 + x.len() {
            } else {
                assert(d[i] == y[i - f.len() - 2 - x.len()]);
            }
        }
        lemma_ascii_lower_letters(d);
        lemma_words_cons(f, mid);
        assert(mid.drop_first() =~= x + tail);
        lemma_words_cons(x, tail);
        assert(tail.drop_first() =~= y);
        lemma_words_single(y);
        assert(words(d) =~= seq![f, x, y]);
        assert(seq![f, x, y].drop_first() =~= seq![x, y]);
        assert(seq![x, y].drop_first() =~= seq![y]);
        assert(seq![y].drop_first() =~= Seq::<Seq<char>>::empty());
        let after_x = DisplayMode { align_x: m.align_x, ..after_fit };
        assert(apply_mode_word(after_fit, x) == Some(after_x));
        assert(apply_mode_word(after_x, y) == Some(m));
        assert(apply_mode_words(m, Seq::<Seq<char>>::empty()) == Some(m));
        assert(apply_mode_words(after_x, seq![y]) == Some(m));
        assert(apply_mode_words(after_fit, seq![x, y]) == Some(m));
    }
}

} // verus!
