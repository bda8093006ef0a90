//! The lines that the program prints for mods and tags: boxed titles and
//! trees drawn with box-drawing characters. The library lays the lines out;
//! the caller prints them, in the colours that the styles stand for.

use crate::criteria::{LabelAmong, LinkedTo, meeting};
use crate::file_hashes::FileHashes;
use crate::rows::{Collision, Model, Tag};
use crate::set_diff::Element;
use crate::store::Store;
use crate::text::{decimal_text, push_decimal};
use crate::verification::{VerificationPassed, VerificationValues};
use vstd::prelude::*;
use vstd::string::*;

verus! {

/// How heavy a stroke of a box-drawing character is.
#[derive(Debug, Clone, Copy, PartialEq, Eq, Structural)]
pub enum Weight {
    /// A light stroke.
    Normal,
    /// A heavy stroke.
    Thick,
    /// A doubled stroke.
    Doubled,
}

/// A box-drawing character, given by the stroke that it has in each of the
/// four directions.
#[derive(Debug, Clone, Copy, PartialEq, Eq, Structural)]
pub struct BoxChar {
    /// The stroke towards the top.
    pub up: Option<Weight>,
    /// The stroke towards the right.
    pub right: Option<Weight>,
    /// The stroke towards the left.
    pub left: Option<Weight>,
    /// The stroke towards the bottom.
    pub down: Option<Weight>,
}

/// A stroke as a number: 0 for none, then 1, 2, 3 for the weights in the
/// order of their declaration.
pub open spec fn weight_code(stroke: Option<Weight>) -> int {
    match stroke {
        None => 0,
        Some(Weight::Normal) => 1,
        Some(Weight::Thick) => 2,
        Some(Weight::Doubled) => 3,
    }
}

/// The character that the `boxy` crate draws for strokes towards the top,
/// the right, the left and the bottom, each given as a number.
pub uninterp spec fn box_drawing_char(up: int, right: int, left: int, down: int) -> char;

/// Calls `boxy::Char::into_char` on a character with these strokes, without
/// a style and not in ASCII mode. The character that comes back depends on
/// the four strokes alone.
#[verifier::external_body]
fn draw(shape: BoxChar) -> (drawn: char)
    ensures
        drawn == box_drawing_char(
            weight_code(shape.up),
            weight_code(shape.right),
            weight_code(shape.left),
            weight_code(shape.down),
        ),
{
    let weight = |stroke: Weight|
        match stroke {
            Weight::Normal => boxy::Weight::Normal,
            Weight::Thick => boxy::Weight::Thick,
            Weight::Doubled => boxy::Weight::Doubled,
        };
    boxy::Char {
        up: shape.up.map(weight),
        right: shape.right.map(weight),
        left: shape.left.map(weight),
        down: shape.down.map(weight),
        style: None,
        ascii: false,
    }.into_char()
}

/// Calls `String::push`: appends a character to a text.
#[verifier::external_body]
fn push_char(text: &mut String, c: char)
    ensures
        final(text)@ == old(text)@.push(c),
{
    text.push(c)
}

impl BoxChar {
    /// The character that is drawn for the shape.
    pub open spec fn drawn(self) -> char {
        box_drawing_char(
            weight_code(self.up),
            weight_code(self.right),
            weight_code(self.left),
            weight_code(self.down),
        )
    }

    /// The character without strokes: a space.
    pub fn empty() -> (shape: BoxChar)
        ensures
            shape == (BoxChar { up: None, right: None, left: None, down: None }),
    {
        BoxChar { up: None, right: None, left: None, down: None }
    }

    /// A vertical line.
    pub fn vertical(w: Weight) -> (shape: BoxChar)
        ensures
            shape == (BoxChar { up: Some(w), right: None, left: None, down: Some(w) }),
    {
        BoxChar { up: Some(w), right: None, left: None, down: Some(w) }
    }

    /// A horizontal line.
    pub fn horizontal(w: Weight) -> (shape: BoxChar)
        ensures
            shape == (BoxChar { up: None, right: Some(w), left: Some(w), down: None }),
    {
        BoxChar { up: None, right: Some(w), left: Some(w), down: None }
    }

    /// A cross.
    pub fn cross(w: Weight) -> (shape: BoxChar)
        ensures
            shape == (BoxChar { up: Some(w), right: Some(w), left: Some(w), down: Some(w) }),
    {
        BoxChar { up: Some(w), right: Some(w), left: Some(w), down: Some(w) }
    }

    /// An upper left corner: strokes towards the bottom and the right.
    pub fn upper_left(w: Weight) -> (shape: BoxChar)
        ensures
            shape == (BoxChar { up: None, right: Some(w), left: None, down: Some(w) }),
    {
        BoxChar { up: None, right: Some(w), left: None, down: Some(w) }
    }

    /// A lower left corner: strokes towards the top and the right.
    pub fn lower_left(w: Weight) -> (shape: BoxChar)
        ensures
            shape == (BoxChar { up: Some(w), right: Some(w), left: None, down: None }),
    {
        BoxChar { up: Some(w), right: Some(w), left: None, down: None }
    }

    /// A T that points to the right: a cross without the stroke towards the
    /// left.
    pub fn right_tee(w: Weight) -> (shape: BoxChar)
        ensures
            shape == (BoxChar { up: Some(w), right: Some(w), left: None, down: Some(w) }),
    {
        BoxChar::cross(w).left(None)
    }

    /// A T that points down: a cross without the stroke towards the top.
    pub fn down_tee(w: Weight) -> (shape: BoxChar)
        ensures
            shape == (BoxChar { up: None, right: Some(w), left: Some(w), down: Some(w) }),
    {
        BoxChar::cross(w).up(None)
    }

    /// Half a line towards the left.
    pub fn left_half(w: Weight) -> (shape: BoxChar)
        ensures
            shape == (BoxChar { up: None, right: None, left: Some(w), down: None }),
    {
        BoxChar::empty().left(Some(w))
    }

    /// The shape with another stroke towards the top.
    pub fn up(self, stroke: Option<Weight>) -> (shape: BoxChar)
        ensures
            shape == (BoxChar { up: stroke, ..self }),
    {
        BoxChar { up: stroke, ..self }
    }

    /// The shape with another stroke towards the left.
    pub fn left(self, stroke: Option<Weight>) -> (shape: BoxChar)
        ensures
            shape == (BoxChar { left: stroke, ..self }),
    {
        BoxChar { left: stroke, ..self }
    }

    /// The shape with another stroke towards the bottom.
    pub fn down(self, stroke: Option<Weight>) -> (shape: BoxChar)
        ensures
            shape == (BoxChar { down: stroke, ..self }),
    {
        BoxChar { down: stroke, ..self }
    }

    /// The shape turned clockwise by one quarter.
    pub open spec fn quarter_turned(self) -> BoxChar {
        BoxChar { up: self.left, right: self.up, down: self.right, left: self.down }
    }

    /// The shape turned clockwise by a number of quarters.
    pub open spec fn turned(self, turns: nat) -> BoxChar
        decreases turns,
    {
        if turns == 0 {
            self
        } else {
            self.turned((turns - 1) as nat).quarter_turned()
        }
    }

    /// The shape turned clockwise by a number of quarters.
    pub fn rotate_cw(self, turns: u32) -> (shape: BoxChar)
        ensures
            shape == self.turned((turns % 4) as nat),
    {
        proof {
            reveal_with_fuel(BoxChar::turned, 4);
        }
        let quarter = |c: BoxChar| -> (t: BoxChar)
            ensures
                t == c.quarter_turned(),
            { BoxChar { up: c.left, right: c.up, down: c.right, left: c.down } };
        match turns % 4 {
            0 => self,
            1 => quarter(self),
            2 => quarter(quarter(self)),
            _ => quarter(quarter(quarter(self))),
        }
    }

    /// The character that is drawn for the shape.
    pub fn into_char(self) -> (c: char)
        ensures
            c == self.drawn(),
    {
        draw(self)
    }
}

/// How a piece of a line is to be shown.
#[derive(Debug, Clone, Copy, PartialEq, Eq, Structural)]
pub enum Style {
    /// As it is.
    Plain,
    /// Bold.
    Bold,
    /// Green.
    Green,
    /// Red.
    Red,
    /// Blue.
    Blue,
    /// Yellow.
    Yellow,
    /// Green and bold.
    GreenBold,
    /// Red and bold.
    RedBold,
    /// Blue and bold.
    BlueBold,
    /// Yellow and bold.
    YellowBold,
    /// Red, bold and blinking.
    RedBoldBlink,
}

/// A piece of a line: a text and how to show it.
#[derive(Debug)]
pub struct Span {
    /// The text.
    pub text: String,
    /// How to show it.
    pub style: Style,
}

impl View for Span {
    type V = (Seq<char>, Style);

    open spec fn view(&self) -> (Seq<char>, Style) {
        (self.text@, self.style)
    }
}

/// What the pieces of a line say.
pub open spec fn line_view(line: Seq<Span>) -> Seq<(Seq<char>, Style)> {
    Seq::new(line.len(), |i: int| line[i]@)
}

/// What the lines say.
pub open spec fn lines_view(lines: Seq<Vec<Span>>) -> Seq<Seq<(Seq<char>, Style)>> {
    Seq::new(lines.len(), |i: int| line_view(lines[i]@))
}

/// The lines of two lists, one after the other, say what the lists say.
pub proof fn lemma_lines_view_concat(first: Seq<Vec<Span>>, second: Seq<Vec<Span>>)
    ensures
        lines_view(first + second) == lines_view(first) + lines_view(second),
{
    assert(lines_view(first + second) =~= lines_view(first) + lines_view(second));
}

/// The box-drawing characters that the lines are drawn with.
#[derive(Debug, Clone, Copy)]
pub struct Glyphs {
    /// Upper left corner of a title.
    pub corner: char,
    /// Upper right corner of a title.
    pub corner_right: char,
    /// Lower right corner of a title.
    pub corner_bottom: char,
    /// Horizontal side of a title.
    pub side: char,
    /// Vertical side of a title.
    pub wall: char,
    /// Lower left corner of a title, where the tree begins.
    pub root: char,
    /// Branch of the tree that is followed by another.
    pub more: char,
    /// Last branch of the tree.
    pub done: char,
    /// Where a branch meets its entry.
    pub node: char,
    /// Branch that goes on below.
    pub down: char,
    /// Trunk that passes an entry by.
    pub bar: char,
}

impl Glyphs {
    /// The characters as the shapes draw them.
    pub open spec fn standard() -> Glyphs {
        let corner = BoxChar {
            up: None,
            right: Some(Weight::Thick),
            left: None,
            down: Some(Weight::Thick),
        };
        Glyphs {
            corner: corner.drawn(),
            corner_right: corner.turned(1).drawn(),
            corner_bottom: corner.turned(2).drawn(),
            side: (BoxChar {
                up: None,
                right: Some(Weight::Thick),
                left: Some(Weight::Thick),
                down: None,
            }).drawn(),
            wall: (BoxChar {
                up: Some(Weight::Thick),
                right: None,
                left: None,
                down: Some(Weight::Thick),
            }).drawn(),
            root: (BoxChar {
                up: Some(Weight::Thick),
                right: Some(Weight::Thick),
                left: None,
                down: Some(Weight::Normal),
            }).drawn(),
            more: (BoxChar {
                up: Some(Weight::Normal),
                right: Some(Weight::Normal),
                left: None,
                down: Some(Weight::Normal),
            }).drawn(),
            done: (BoxChar {
                up: Some(Weight::Normal),
                right: Some(Weight::Normal),
                left: None,
                down: None,
            }).drawn(),
            node: (BoxChar {
                up: None,
                right: None,
                left: Some(Weight::Normal),
                down: None,
            }).drawn(),
            down: (BoxChar {
                up: None,
                right: Some(Weight::Normal),
                left: Some(Weight::Normal),
                down: Some(Weight::Normal),
            }).drawn(),
            bar: (BoxChar {
                up: Some(Weight::Normal),
                right: None,
                left: None,
                down: Some(Weight::Normal),
            }).drawn(),
        }
    }

    /// Draws the characters.
    pub fn new() -> (glyphs: Glyphs)
        ensures
            glyphs == Glyphs::standard(),
    {
        proof {
            reveal_with_fuel(BoxChar::turned, 4);
        }
        let corner = BoxChar::upper_left(Weight::Thick);
        Glyphs {
            corner: corner.into_char(),
            corner_right: corner.rotate_cw(1).into_char(),
            corner_bottom: corner.rotate_cw(2).into_char(),
            side: BoxChar::horizontal(Weight::Thick).into_char(),
            wall: BoxChar::vertical(Weight::Thick).into_char(),
            root: BoxChar::right_tee(Weight::Thick).down(Some(Weight::Normal)).into_char(),
            more: BoxChar::right_tee(Weight::Normal).into_char(),
            done: BoxChar::lower_left(Weight::Normal).into_char(),
            node: BoxChar::left_half(Weight::Normal).into_char(),
            down: BoxChar::down_tee(Weight::Normal).into_char(),
            bar: BoxChar::vertical(Weight::Normal).into_char(),
        }
    }
}

/// A character repeated.
pub open spec fn repeated(c: char, count: nat) -> Seq<char> {
    Seq::new(count, |i: int| c)
}

/// Appends a character to a text a number of times.
fn push_repeated(text: &mut String, c: char, count: usize)
    ensures
        final(text)@ == old(text)@ + repeated(c, count as nat),
{
    let mut i: usize = 0;
    proof {
        assert(text@ =~= old(text)@ + repeated(c, 0));
    }
    while i < count
        invariant
            i <= count,
            text@ == old(text)@ + repeated(c, i as nat),
        decreases count - i,
    {
        push_char(text, c);
        proof {
            assert(text@ =~= old(text)@ + repeated(c, (i + 1) as nat));
        }
        i += 1;
    }
}

/// A line of one plain piece.
fn plain_line(text: String) -> (line: Vec<Span>)
    ensures
        line_view(line@) == seq![(text@, Style::Plain)],
{
    let mut line: Vec<Span> = Vec::new();
    line.push(Span { text, style: Style::Plain });
    proof {
        assert(line_view(line@) =~= seq![(text@, Style::Plain)]);
    }
    line
}

/// A line of three pieces.
fn line_of_three(a: Span, b: Span, c: Span) -> (line: Vec<Span>)
    ensures
        line_view(line@) == seq![a@, b@, c@],
{
    let mut line: Vec<Span> = Vec::new();
    line.push(a);
    line.push(b);
    line.push(c);
    proof {
        assert(line_view(line@) =~= seq![a@, b@, c@]);
    }
    line
}

/// The top or the bottom of the box around a title whose text takes
/// `width` bytes: a corner, the side over the title and a blank at each
/// end, and a corner.
pub open spec fn title_edge(left: char, side: char, right: char, width: nat) -> Seq<char> {
    seq![left] + repeated(side, width + 2) + seq![right]
}

/// The three lines of a boxed title.
pub open spec fn title_lines(glyphs: Glyphs, title: Seq<char>, style: Style) -> Seq<
    Seq<(Seq<char>, Style)>,
> {
    let width = vstd::utf8::encode_utf8(title).len();
    seq![
        seq![(title_edge(glyphs.corner, glyphs.side, glyphs.corner_right, width), Style::Plain)],
        seq![
            (seq![glyphs.wall, ' '], Style::Plain),
            (title, style),
            (seq![' ', glyphs.wall], Style::Plain),
        ],
        seq![(title_edge(glyphs.root, glyphs.side, glyphs.corner_bottom, width), Style::Plain)],
    ]
}

/// Lays out a boxed title.
pub fn title_box(glyphs: &Glyphs, title: &String, style: Style) -> (lines: Vec<Vec<Span>>)
    requires
        vstd::utf8::encode_utf8(title@).len() + 2 <= usize::MAX,
    ensures
        lines_view(lines@) == title_lines(*glyphs, title@, style),
{
    let width = title.as_str().len();
    let mut top = String::new();
    push_char(&mut top, glyphs.corner);
    push_repeated(&mut top, glyphs.side, width + 2);
    push_char(&mut top, glyphs.corner_right);
    let mut left = String::new();
    push_char(&mut left, glyphs.wall);
    push_char(&mut left, ' ');
    let mut right = String::new();
    push_char(&mut right, ' ');
    push_char(&mut right, glyphs.wall);
    let mut bottom = String::new();
    push_char(&mut bottom, glyphs.root);
    push_repeated(&mut bottom, glyphs.side, width + 2);
    push_char(&mut bottom, glyphs.corner_bottom);
    proof {
        let w = vstd::utf8::encode_utf8(title@).len();
        assert(top@ =~= title_edge(glyphs.corner, glyphs.side, glyphs.corner_right, w));
        assert(bottom@ =~= title_edge(glyphs.root, glyphs.side, glyphs.corner_bottom, w));
        assert(left@ =~= seq![glyphs.wall, ' ']);
        assert(right@ =~= seq![' ', glyphs.wall]);
    }
    let mut lines: Vec<Vec<Span>> = Vec::new();
    lines.push(plain_line(top));
    lines.push(
        line_of_three(
            Span { text: left, style: Style::Plain },
            Span { text: title.clone(), style },
            Span { text: right, style: Style::Plain },
        ),
    );
    lines.push(plain_line(bottom));
    proof {
        assert(lines_view(lines@) =~= title_lines(*glyphs, title@, style));
    }
    lines
}

/// What joins an entry of a list to the tree: the first entry hangs on a
/// corner, the others on the trunk, and every entry but the last is
/// followed by another.
pub open spec fn connector(glyphs: Glyphs, first: bool, has_next: bool) -> Seq<char> {
    if first {
        if has_next {
            seq![glyphs.done, glyphs.down]
        } else {
            seq![glyphs.done]
        }
    } else {
        if has_next {
            seq![' ', glyphs.more]
        } else {
            seq![' ', glyphs.done]
        }
    }
}

/// The line of an entry of a list: what leads it in, its connector, the
/// node and its text.
pub open spec fn item_text(
    glyphs: Glyphs,
    lead: Seq<char>,
    index: int,
    count: int,
    text: Seq<char>,
) -> Seq<char> {
    lead + connector(glyphs, index == 0, index + 1 < count) + seq![glyphs.node] + text
}

/// The lines of the entries of a list.
pub open spec fn item_lines(glyphs: Glyphs, lead: Seq<char>, texts: Seq<Seq<char>>) -> Seq<
    Seq<(Seq<char>, Style)>,
> {
    Seq::new(
        texts.len(),
        |i: int| seq![(item_text(glyphs, lead, i, texts.len() as int, texts[i]), Style::Plain)],
    )
}

/// The texts of a list of strings.
pub open spec fn texts_of(items: Seq<String>) -> Seq<Seq<char>> {
    Seq::new(items.len(), |i: int| items[i]@)
}

/// Lays out the entries of a list below a heading.
pub fn item_list(glyphs: &Glyphs, lead: &str, items: &Vec<String>) -> (lines: Vec<Vec<Span>>)
    ensures
        lines_view(lines@) == item_lines(*glyphs, lead@, texts_of(items@)),
{
    let mut lines: Vec<Vec<Span>> = Vec::new();
    let mut i: usize = 0;
    while i < items.len()
        invariant
            i <= items.len(),
            lines.len() == i,
            forall|j: int|
                0 <= j < i ==> line_view((#[trigger] lines[j])@) == seq![
                    (
                        item_text(*glyphs, lead@, j, items.len() as int, items[j]@),
                        Style::Plain,
                    ),
                ],
        decreases items.len() - i,
    {
        let mut text = String::from_str(lead);
        let first = i == 0;
        let has_next = i + 1 < items.len();
        if first {
            push_char(&mut text, glyphs.done);
            if has_next {
                push_char(&mut text, glyphs.down);
            }
        } else {
            push_char(&mut text, ' ');
            if has_next {
                push_char(&mut text, glyphs.more);
            } else {
                push_char(&mut text, glyphs.done);
            }
        }
        push_char(&mut text, glyphs.node);
        text.append(items[i].as_str());
        proof {
            assert(text@ =~= item_text(*glyphs, lead@, i as int, items.len() as int, items[i as int]@));
        }
        lines.push(plain_line(text));
        i += 1;
    }
    proof {
        assert(lines_view(lines@) =~= item_lines(*glyphs, lead@, texts_of(items@)));
    }
    lines
}

/// The lines that show a tag with the names of its mods: the tag in a
/// box, then a branch for each mod.
pub open spec fn tag_lines(glyphs: Glyphs, tag: Seq<char>, names: Seq<Seq<char>>) -> Seq<
    Seq<(Seq<char>, Style)>,
> {
    title_lines(glyphs, tag, Style::Bold) + Seq::new(
        names.len(),
        |i: int|
            seq![
                (
                    seq![
                        if i + 1 < names.len() {
                            glyphs.more
                        } else {
                            glyphs.done
                        },
                        glyphs.node,
                    ] + names[i],
                    Style::Plain,
                ),
            ],
    )
}

/// The names of a sequence of records.
pub open spec fn names_of(mods: Seq<Model>) -> Seq<Seq<char>> {
    Seq::new(mods.len(), |i: int| mods[i].name@)
}

/// Lays out a tag with the mods that have it.
pub fn render_tag(glyphs: &Glyphs, tag: &Tag, mods: &Vec<Model>) -> (lines: Vec<Vec<Span>>)
    requires
        vstd::utf8::encode_utf8(tag.tag@).len() + 2 <= usize::MAX,
    ensures
        lines_view(lines@) == tag_lines(*glyphs, tag.tag@, names_of(mods@)),
{
    let mut lines = title_box(glyphs, &tag.tag, Style::Bold);
    let ghost title = lines@;
    let mut i: usize = 0;
    proof {
        assert(title_lines(*glyphs, tag.tag@, Style::Bold).len() == 3);
        assert(lines_view(title).len() == title.len());
    }
    while i < mods.len()
        invariant
            i <= mods.len(),
            lines.len() == title.len() + i,
            title.len() == 3,
            lines_view(title) == title_lines(*glyphs, tag.tag@, Style::Bold),
            forall|j: int| 0 <= j < title.len() ==> #[trigger] lines[j] == title[j],
            forall|j: int|
                0 <= j < i ==> line_view((#[trigger] lines[title.len() + j])@) == seq![
                    (
                        seq![
                            if j + 1 < mods.len() {
                                glyphs.more
                            } else {
                                glyphs.done
                            },
                            glyphs.node,
                        ] + mods[j].name@,
                        Style::Plain,
                    ),
                ],
        decreases mods.len() - i,
    {
        let mut text = String::new();
        if i + 1 < mods.len() {
            push_char(&mut text, glyphs.more);
        } else {
            push_char(&mut text, glyphs.done);
        }
        push_char(&mut text, glyphs.node);
        text.append(mods[i].name.as_str());
        proof {
            assert(text@ =~= seq![
                if i + 1 < mods.len() {
                    glyphs.more
                } else {
                    glyphs.done
                },
                glyphs.node,
            ] + mods[i as int].name@);
        }
        lines.push(plain_line(text));
        i += 1;
    }
    proof {
        let expected = tag_lines(*glyphs, tag.tag@, names_of(mods@));
        assert(lines_view(lines@).len() == expected.len());
        assert forall|j: int| 0 <= j < expected.len() implies lines_view(lines@)[j]
            == expected[j] by {
            if j < 3 {
                assert(lines[j] == title[j]);
                assert(lines_view(title)[j] == line_view(title[j]@));
            } else {
                assert(line_view(lines[title.len() + (j - 3)]@) == expected[j]);
            }
        }
        assert(lines_view(lines@) =~= expected);
    }
    lines
}

/// What is shown of the verification of a mod: whether it passed, and
/// the text of each file in its group.
#[derive(Debug)]
pub struct VerificationTexts {
    /// Whether verification passed.
    pub passed: bool,
    /// Files that match, each with its fingerprint.
    pub matching: Vec<String>,
    /// Files that are missing, each with the fingerprint recorded for it.
    pub missing: Vec<String>,
    /// Files that are new, each with its fingerprint.
    pub new: Vec<String>,
    /// Files that have changed, each with the recorded fingerprint and the
    /// fingerprint that it has now.
    pub changed: Vec<String>,
}

/// The text of a file with a fingerprint.
pub open spec fn file_text(path: Seq<char>, hash: Seq<char>) -> Seq<char> {
    path + " ("@ + hash + ")"@
}

/// The text of a file whose fingerprint has changed.
pub open spec fn changed_text(path: Seq<char>, recorded: Seq<char>, current: Seq<char>) -> Seq<
    char,
> {
    path + " ("@ + recorded + " -> "@ + current + ")"@
}

/// Every file that the report names as matching, missing or changed has a
/// recorded fingerprint. A report fits the mapping that it was made for.
pub open spec fn report_fits(
    hashes: Map<Seq<char>, Seq<char>>,
    report: VerificationValues,
) -> bool {
    &&& forall|i: int|
        0 <= i < report.matching_files.len() ==> hashes.contains_key(
            (#[trigger] report.matching_files[i])@,
        )
    &&& forall|i: int|
        0 <= i < report.missing_files.len() ==> hashes.contains_key(
            (#[trigger] report.missing_files[i])@,
        )
    &&& forall|path: Seq<char>|
        report.changed_files@.contains_key(path) ==> hashes.contains_key(path)
}

/// Writes out the files of a verification report, group by group, with the
/// fingerprints recorded in `hashes`.
pub fn verification_texts(hashes: &FileHashes, report: &VerificationValues) -> (texts:
    VerificationTexts)
    requires
        hashes.wf(),
        report.wf(),
        report_fits(hashes@, *report),
    ensures
        texts.passed == report.passed(),
        texts.matching.len() == report.matching_files.len(),
        forall|i: int|
            0 <= i < texts.matching.len() ==> (#[trigger] texts.matching[i])@ == file_text(
                report.matching_files[i]@,
                hashes@[report.matching_files[i]@],
            ),
        texts.missing.len() == report.missing_files.len(),
        forall|i: int|
            0 <= i < texts.missing.len() ==> (#[trigger] texts.missing[i])@ == file_text(
                report.missing_files[i]@,
                hashes@[report.missing_files[i]@],
            ),
        texts.new.len() == report.new_files.listing().len(),
        forall|i: int|
            0 <= i < texts.new.len() ==> (#[trigger] texts.new[i])@ == file_text(
                report.new_files.listing()[i].0,
                report.new_files.listing()[i].1,
            ),
        texts.changed.len() == report.changed_files.listing().len(),
        forall|i: int|
            0 <= i < texts.changed.len() ==> (#[trigger] texts.changed[i])@ == changed_text(
                report.changed_files.listing()[i].0,
                hashes@[report.changed_files.listing()[i].0],
                report.changed_files.listing()[i].1,
            ),
{
    let matching = recorded_texts(hashes, &report.matching_files);
    let missing = recorded_texts(hashes, &report.missing_files);
    let new_entries = report.new_files.entries();
    let mut new: Vec<String> = Vec::new();
    let mut i: usize = 0;
    while i < new_entries.len()
        invariant
            i <= new_entries.len(),
            new.len() == i,
            forall|j: int|
                0 <= j < i ==> (#[trigger] new[j])@ == file_text(
                    new_entries[j].0@,
                    new_entries[j].1@,
                ),
        decreases new_entries.len() - i,
    {
        let text = new_entries[i].0.clone().concat(" (").concat(new_entries[i].1.as_str()).concat(
            ")",
        );
        new.push(text);
        i += 1;
    }
    let changed_entries = report.changed_files.entries();
    let mut changed: Vec<String> = Vec::new();
    let mut k: usize = 0;
    while k < changed_entries.len()
        invariant
            k <= changed_entries.len(),
            changed.len() == k,
            hashes.wf(),
            forall|j: int|
                0 <= j < changed_entries.len() ==> hashes@.contains_key(
                    (#[trigger] changed_entries[j]).0@,
                ),
            forall|j: int|
                0 <= j < k ==> (#[trigger] changed[j])@ == changed_text(
                    changed_entries[j].0@,
                    hashes@[changed_entries[j].0@],
                    changed_entries[j].1@,
                ),
        decreases changed_entries.len() - k,
    {
        let recorded = match hashes.get(&changed_entries[k].0) {
            Some(hash) => hash.clone(),
            None => String::new(),
        };
        let text = changed_entries[k].0.clone().concat(" (").concat(recorded.as_str()).concat(
            " -> ",
        ).concat(changed_entries[k].1.as_str()).concat(")");
        changed.push(text);
        k += 1;
    }
    VerificationTexts { passed: report.verification_passed(), matching, missing, new, changed }
}

/// The texts of files with the fingerprints recorded for them.
fn recorded_texts(hashes: &FileHashes, paths: &Vec<String>) -> (texts: Vec<String>)
    requires
        hashes.wf(),
        forall|i: int| 0 <= i < paths.len() ==> hashes@.contains_key((#[trigger] paths[i])@),
    ensures
        texts.len() == paths.len(),
        forall|i: int|
            0 <= i < texts.len() ==> (#[trigger] texts[i])@ == file_text(
                paths[i]@,
                hashes@[paths[i]@],
            ),
{
    let mut texts: Vec<String> = Vec::new();
    let mut i: usize = 0;
    while i < paths.len()
        invariant
            i <= paths.len(),
            texts.len() == i,
            hashes.wf(),
            forall|j: int| 0 <= j < paths.len() ==> hashes@.contains_key((#[trigger] paths[j])@),
            forall|j: int|
                0 <= j < i ==> (#[trigger] texts[j])@ == file_text(paths[j]@, hashes@[paths[j]@]),
        decreases paths.len() - i,
    {
        let recorded = match hashes.get(&paths[i]) {
            Some(hash) => hash.clone(),
            None => String::new(),
        };
        texts.push(paths[i].clone().concat(" (").concat(recorded.as_str()).concat(")"));
        i += 1;
    }
    texts
}

/// The style of the name of a mod: green where its verification passed,
/// red where it failed, and bold in any case.
pub open spec fn name_style(passed: Option<bool>) -> Style {
    match passed {
        Some(true) => Style::GreenBold,
        Some(false) => Style::RedBold,
        None => Style::Bold,
    }
}

/// The one line that shows a mod without details: its name and its
/// version.
pub open spec fn summary_line(record: Model, passed: Option<bool>) -> Seq<(Seq<char>, Style)> {
    seq![
        ("- "@, Style::Plain),
        (record.name@, name_style(passed)),
        (" ("@ + record.version@ + ")"@, Style::Plain),
    ]
}

/// The line of a field of a mod: a branch, the name of the field, and its
/// value.
pub open spec fn field_line(glyphs: Glyphs, last: bool, label: Seq<char>, value: Seq<char>) -> Seq<
    (Seq<char>, Style),
> {
    seq![
        (
            seq![
                if last {
                    glyphs.done
                } else {
                    glyphs.more
                },
                glyphs.node,
            ],
            Style::Plain,
        ),
        (label, Style::Bold),
        (seq![' '] + value, Style::Plain),
    ]
}

/// The heading of a list in the tree of a mod: what leads it in, a branch
/// that goes on below, and the name of the list.
pub open spec fn heading_line(
    glyphs: Glyphs,
    lead: Seq<char>,
    last: bool,
    label: Seq<char>,
    style: Style,
    trailer: Seq<char>,
) -> Seq<(Seq<char>, Style)> {
    seq![
        (
            lead + seq![
                if last {
                    glyphs.done
                } else {
                    glyphs.more
                },
                glyphs.down,
                glyphs.node,
            ],
            Style::Plain,
        ),
        (label, style),
        (trailer, Style::Plain),
    ]
}

/// The lines of a group of files below the verification of a mod: nothing
/// for an empty group, else a heading and the files. The group is the last
/// where no group with files follows.
pub open spec fn group_lines(
    glyphs: Glyphs,
    texts: Seq<Seq<char>>,
    label: Seq<char>,
    style: Style,
    last: bool,
) -> Seq<Seq<(Seq<char>, Style)>> {
    if texts.len() == 0 {
        Seq::empty()
    } else {
        seq![heading_line(glyphs, seq![' '], last, label, style, ":"@)] + item_lines(
            glyphs,
            seq![
                ' ',
                if last {
                    ' '
                } else {
                    glyphs.bar
                },
            ],
            texts,
        )
    }
}

/// The lines of the tags of a mod: nothing where it has none, else a
/// heading and the tags. They are the last of the tree where no
/// verification follows.
pub open spec fn tags_lines(glyphs: Glyphs, tags: Seq<Seq<char>>, last: bool) -> Seq<
    Seq<(Seq<char>, Style)>,
> {
    if tags.len() == 0 {
        Seq::empty()
    } else {
        seq![heading_line(glyphs, Seq::empty(), last, "Tags:"@, Style::Bold, Seq::empty())]
            + item_lines(
            glyphs,
            seq![
                if last {
                    ' '
                } else {
                    glyphs.bar
                },
            ],
            tags,
        )
    }
}

/// The line that says whether verification passed. A branch goes on below
/// it where a group has files.
pub open spec fn verdict_line(glyphs: Glyphs, passed: bool, has_files: bool) -> Seq<
    (Seq<char>, Style),
> {
    seq![
        (
            if has_files {
                seq![glyphs.done, glyphs.down, glyphs.node]
            } else {
                seq![glyphs.done, glyphs.node]
            },
            Style::Plain,
        ),
        ("Verification:"@, Style::Bold),
        (" "@, Style::Plain),
        if passed {
            ("PASSED"@, Style::GreenBold)
        } else {
            ("FAILED"@, Style::RedBold)
        },
    ]
}

/// The lines of the verification of a mod: the verdict, then the groups of
/// matching, missing, new and changed files.
pub open spec fn verification_lines(
    glyphs: Glyphs,
    passed: bool,
    matching: Seq<Seq<char>>,
    missing: Seq<Seq<char>>,
    new: Seq<Seq<char>>,
    changed: Seq<Seq<char>>,
) -> Seq<Seq<(Seq<char>, Style)>> {
    seq![
        verdict_line(
            glyphs,
            passed,
            matching.len() > 0 || missing.len() > 0 || new.len() > 0 || changed.len() > 0,
        ),
    ] + group_lines(
        glyphs,
        matching,
        "Matching"@,
        Style::Green,
        missing.len() == 0 && new.len() == 0 && changed.len() == 0,
    ) + group_lines(
        glyphs,
        missing,
        "Missing"@,
        Style::Red,
        new.len() == 0 && changed.len() == 0,
    ) + group_lines(glyphs, new, "New"@, Style::Blue, changed.len() == 0) + group_lines(
        glyphs,
        changed,
        "Changed"@,
        Style::Yellow,
        true,
    )
}

/// The lines that show a mod with its details: the name in a box, the
/// fields, the tags, and the verification where there was one.
pub open spec fn detail_lines(
    glyphs: Glyphs,
    record: Model,
    updated: Seq<char>,
    tags: Seq<Seq<char>>,
    checked: Option<VerificationTexts>,
) -> Seq<Seq<(Seq<char>, Style)>> {
    title_lines(
        glyphs,
        record.name@,
        name_style(
            match checked {
                Some(texts) => Some(texts.passed),
                None => None,
            },
        ),
    ) + seq![
        field_line(glyphs, false, "Version:"@, record.version@),
        field_line(glyphs, false, "Mod ID:"@, decimal_text(record.id as int)),
        field_line(glyphs, false, "Updated:"@, updated),
        field_line(glyphs, false, "Source:"@, record.source_url@),
        field_line(
            glyphs,
            tags.len() == 0 && checked is None,
            "Subdirectory:"@,
            record.directory@,
        ),
    ] + tags_lines(glyphs, tags, checked is None) + match checked {
        Some(texts) => verification_lines(
            glyphs,
            texts.passed,
            texts_of(texts.matching@),
            texts_of(texts.missing@),
            texts_of(texts.new@),
            texts_of(texts.changed@),
        ),
        None => Seq::empty(),
    }
}

/// The style of the name of a mod.
fn style_of_name(passed: Option<bool>) -> (style: Style)
    ensures
        style == name_style(passed),
{
    match passed {
        Some(true) => Style::GreenBold,
        Some(false) => Style::RedBold,
        None => Style::Bold,
    }
}

/// Lays out the one line that shows a mod without details. `passed` says
/// how its verification ended, where there was one.
pub fn render_summary(record: &Model, passed: Option<bool>) -> (line: Vec<Span>)
    ensures
        line_view(line@) == summary_line(*record, passed),
{
    line_of_three(
        Span { text: String::from_str("- "), style: Style::Plain },
        Span { text: record.name.clone(), style: style_of_name(passed) },
        Span {
            text: String::from_str(" (").concat(record.version.as_str()).concat(")"),
            style: Style::Plain,
        },
    )
}

/// Lays out the line of a field.
fn render_field(glyphs: &Glyphs, last: bool, label: &str, value: &str) -> (line: Vec<Span>)
    ensures
        line_view(line@) == field_line(*glyphs, last, label@, value@),
{
    let mut branch = String::new();
    push_char(
        &mut branch,
        if last {
            glyphs.done
        } else {
            glyphs.more
        },
    );
    push_char(&mut branch, glyphs.node);
    let mut text = String::new();
    push_char(&mut text, ' ');
    text.append(value);
    proof {
        assert(branch@ =~= seq![
            if last {
                glyphs.done
            } else {
                glyphs.more
            },
            glyphs.node,
        ]);
        assert(text@ =~= seq![' '] + value@);
    }
    line_of_three(
        Span { text: branch, style: Style::Plain },
        Span { text: String::from_str(label), style: Style::Bold },
        Span { text, style: Style::Plain },
    )
}

/// Lays out the heading of a list.
fn render_heading(
    glyphs: &Glyphs,
    lead: &str,
    last: bool,
    label: &str,
    style: Style,
    trailer: &str,
) -> (line: Vec<Span>)
    ensures
        line_view(line@) == heading_line(*glyphs, lead@, last, label@, style, trailer@),
{
    let mut branch = String::from_str(lead);
    push_char(
        &mut branch,
        if last {
            glyphs.done
        } else {
            glyphs.more
        },
    );
    push_char(&mut branch, glyphs.down);
    push_char(&mut branch, glyphs.node);
    proof {
        assert(branch@ =~= lead@ + seq![
            if last {
                glyphs.done
            } else {
                glyphs.more
            },
            glyphs.down,
            glyphs.node,
        ]);
    }
    line_of_three(
        Span { text: branch, style: Style::Plain },
        Span { text: String::from_str(label), style },
        Span { text: String::from_str(trailer), style: Style::Plain },
    )
}

/// Appends lines to lines.
fn append_lines(lines: &mut Vec<Vec<Span>>, more: Vec<Vec<Span>>)
    ensures
        lines_view(final(lines)@) == lines_view(old(lines)@) + lines_view(more@),
{
    let mut more = more;
    proof {
        lemma_lines_view_concat(lines@, more@);
    }
    lines.append(&mut more);
}

/// Appends a line to lines.
fn append_line(lines: &mut Vec<Vec<Span>>, line: Vec<Span>)
    ensures
        lines_view(final(lines)@) == lines_view(old(lines)@) + seq![line_view(line@)],
{
    lines.push(line);
    proof {
        assert(lines_view(lines@) =~= lines_view(old(lines)@) + seq![line_view(line@)]);
    }
}

/// Lays out a group of files.
fn render_group(
    glyphs: &Glyphs,
    texts: &Vec<String>,
    label: &str,
    style: Style,
    last: bool,
) -> (lines: Vec<Vec<Span>>)
    ensures
        lines_view(lines@) == group_lines(*glyphs, texts_of(texts@), label@, style, last),
{
    let mut lines: Vec<Vec<Span>> = Vec::new();
    if texts.len() > 0 {
        proof {
            reveal_strlit(" ");
            reveal_strlit(":");
        }
        append_line(&mut lines, render_heading(glyphs, " ", last, label, style, ":"));
        let mut lead = String::new();
        push_char(&mut lead, ' ');
        push_char(
            &mut lead,
            if last {
                ' '
            } else {
                glyphs.bar
            },
        );
        proof {
            assert(lead@ =~= seq![
                ' ',
                if last {
                    ' '
                } else {
                    glyphs.bar
                },
            ]);
            assert(" "@ =~= seq![' ']);
        }
        append_lines(&mut lines, item_list(glyphs, lead.as_str(), texts));
        proof {
            assert(lines_view(lines@) =~= group_lines(
                *glyphs,
                texts_of(texts@),
                label@,
                style,
                last,
            ));
        }
    } else {
        proof {
            assert(lines_view(lines@) =~= group_lines(
                *glyphs,
                texts_of(texts@),
                label@,
                style,
                last,
            ));
        }
    }
    lines
}

/// Lays out the verification of a mod.
fn render_verification(glyphs: &Glyphs, texts: &VerificationTexts) -> (lines: Vec<Vec<Span>>)
    ensures
        lines_view(lines@) == verification_lines(
            *glyphs,
            texts.passed,
            texts_of(texts.matching@),
            texts_of(texts.missing@),
            texts_of(texts.new@),
            texts_of(texts.changed@),
        ),
{
    let has_matching = texts.matching.len() > 0;
    let has_missing = texts.missing.len() > 0;
    let has_new = texts.new.len() > 0;
    let has_changed = texts.changed.len() > 0;
    let has_files = has_matching || has_missing || has_new || has_changed;
    let mut branch = String::new();
    push_char(&mut branch, glyphs.done);
    if has_files {
        push_char(&mut branch, glyphs.down);
    }
    push_char(&mut branch, glyphs.node);
    let mut verdict: Vec<Span> = Vec::new();
    verdict.push(Span { text: branch, style: Style::Plain });
    verdict.push(Span { text: String::from_str("Verification:"), style: Style::Bold });
    verdict.push(Span { text: String::from_str(" "), style: Style::Plain });
    if texts.passed {
        verdict.push(Span { text: String::from_str("PASSED"), style: Style::GreenBold });
    } else {
        verdict.push(Span { text: String::from_str("FAILED"), style: Style::RedBold });
    }
    proof {
        assert(branch@ =~= if has_files {
            seq![glyphs.done, glyphs.down, glyphs.node]
        } else {
            seq![glyphs.done, glyphs.node]
        });
        assert(line_view(verdict@) =~= verdict_line(*glyphs, texts.passed, has_files));
    }
    let mut lines: Vec<Vec<Span>> = Vec::new();
    append_line(&mut lines, verdict);
    append_lines(
        &mut lines,
        render_group(
            glyphs,
            &texts.matching,
            "Matching",
            Style::Green,
            !has_missing && !has_new && !has_changed,
        ),
    );
    append_lines(
        &mut lines,
        render_group(glyphs, &texts.missing, "Missing", Style::Red, !has_new && !has_changed),
    );
    append_lines(&mut lines, render_group(glyphs, &texts.new, "New", Style::Blue, !has_changed));
    append_lines(&mut lines, render_group(glyphs, &texts.changed, "Changed", Style::Yellow, true));
    proof {
        assert(lines_view(lines@) =~= verification_lines(
            *glyphs,
            texts.passed,
            texts_of(texts.matching@),
            texts_of(texts.missing@),
            texts_of(texts.new@),
            texts_of(texts.changed@),
        ));
    }
    lines
}

/// Lays out a mod with its details. `updated` is the time of the record's
/// last change as it is to be shown, and `checked` what the verification
/// of its files has given, where they were verified.
pub fn render_mod(
    glyphs: &Glyphs,
    record: &Model,
    updated: &str,
    tags: &Vec<String>,
    checked: &Option<VerificationTexts>,
) -> (lines: Vec<Vec<Span>>)
    requires
        vstd::utf8::encode_utf8(record.name@).len() + 2 <= usize::MAX,
    ensures
        lines_view(lines@) == detail_lines(*glyphs, *record, updated@, texts_of(tags@), *checked),
{
    let passed = match checked {
        Some(texts) => Some(texts.passed),
        None => None,
    };
    let unchecked = checked.is_none();
    let mut lines = title_box(glyphs, &record.name, style_of_name(passed));
    let mut id = String::new();
    push_decimal(&mut id, record.id as i64);
    proof {
        assert(id@ =~= decimal_text(record.id as int));
    }
    let mut fields: Vec<Vec<Span>> = Vec::new();
    append_line(&mut fields, render_field(glyphs, false, "Version:", record.version.as_str()));
    append_line(&mut fields, render_field(glyphs, false, "Mod ID:", id.as_str()));
    append_line(&mut fields, render_field(glyphs, false, "Updated:", updated));
    append_line(&mut fields, render_field(glyphs, false, "Source:", record.source_url.as_str()));
    append_line(
        &mut fields,
        render_field(
            glyphs,
            tags.len() == 0 && unchecked,
            "Subdirectory:",
            record.directory.as_str(),
        ),
    );
    proof {
        assert(lines_view(fields@) =~= seq![
            field_line(*glyphs, false, "Version:"@, record.version@),
            field_line(*glyphs, false, "Mod ID:"@, decimal_text(record.id as int)),
            field_line(*glyphs, false, "Updated:"@, updated@),
            field_line(*glyphs, false, "Source:"@, record.source_url@),
            field_line(
                *glyphs,
                tags.len() == 0 && checked is None,
                "Subdirectory:"@,
                record.directory@,
            ),
        ]);
    }
    append_lines(&mut lines, fields);
    let mut tag_block: Vec<Vec<Span>> = Vec::new();
    if tags.len() > 0 {
        proof {
            reveal_strlit("");
        }
        append_line(
            &mut tag_block,
            render_heading(glyphs, "", unchecked, "Tags:", Style::Bold, ""),
        );
        let mut lead = String::new();
        push_char(
            &mut lead,
            if unchecked {
                ' '
            } else {
                glyphs.bar
            },
        );
        proof {
            assert(lead@ =~= seq![
                if unchecked {
                    ' '
                } else {
                    glyphs.bar
                },
            ]);
            assert(""@ =~= Seq::<char>::empty());
        }
        append_lines(&mut tag_block, item_list(glyphs, lead.as_str(), tags));
    }
    proof {
        assert(lines_view(tag_block@) =~= tags_lines(*glyphs, texts_of(tags@), checked is None));
    }
    append_lines(&mut lines, tag_block);
    match checked {
        Some(texts) => {
            append_lines(&mut lines, render_verification(glyphs, texts));
        },
        None => {
            proof {
                assert(lines_view(lines@) =~= lines_view(lines@) + Seq::<
                    Seq<(Seq<char>, Style)>,
                >::empty());
            }
        },
    }
    lines
}

/// The lines that warn of a fingerprint that two mods share.
pub open spec fn collision_lines(collision: Collision) -> Seq<Seq<(Seq<char>, Style)>> {
    seq![
        seq![("!!! HASH COLLISION DETECTED !!!"@, Style::RedBoldBlink)],
        seq![("Hash:           "@, Style::Plain), (collision.hash@, Style::YellowBold)],
        seq![("Colliding mod:  "@, Style::Plain), (collision.colliding_mod@, Style::RedBold)],
        seq![("Colliding file: "@, Style::Plain), (collision.colliding_file@, Style::Red)],
        seq![("Existing mod:   "@, Style::Plain), (collision.existing_mod@, Style::BlueBold)],
        seq![("Existing file:  "@, Style::Plain), (collision.existing_file@, Style::Blue)],
    ]
}

/// A line of a plain label and a value.
fn labelled_line(label: &str, value: &String, style: Style) -> (line: Vec<Span>)
    ensures
        line_view(line@) == seq![(label@, Style::Plain), (value@, style)],
{
    let mut line: Vec<Span> = Vec::new();
    line.push(Span { text: String::from_str(label), style: Style::Plain });
    line.push(Span { text: value.clone(), style });
    proof {
        assert(line_view(line@) =~= seq![(label@, Style::Plain), (value@, style)]);
    }
    line
}

/// Lays out the warning of a fingerprint that two mods share.
pub fn render_collision(collision: &Collision) -> (lines: Vec<Vec<Span>>)
    ensures
        lines_view(lines@) == collision_lines(*collision),
{
    let mut banner: Vec<Span> = Vec::new();
    banner.push(
        Span { text: String::from_str("!!! HASH COLLISION DETECTED !!!"), style: Style::RedBoldBlink },
    );
    proof {
        assert(line_view(banner@) =~= seq![("!!! HASH COLLISION DETECTED !!!"@, Style::RedBoldBlink)]);
    }
    let mut lines: Vec<Vec<Span>> = Vec::new();
    lines.push(banner);
    lines.push(labelled_line("Hash:           ", &collision.hash, Style::YellowBold));
    lines.push(labelled_line("Colliding mod:  ", &collision.colliding_mod, Style::RedBold));
    lines.push(labelled_line("Colliding file: ", &collision.colliding_file, Style::Red));
    lines.push(labelled_line("Existing mod:   ", &collision.existing_mod, Style::BlueBold));
    lines.push(labelled_line("Existing file:  ", &collision.existing_file, Style::Blue));
    proof {
        assert(lines_view(lines@) =~= collision_lines(*collision));
    }
    lines
}

/// The report of a verification fits the recorded mapping that it was made
/// for.
pub proof fn lemma_report_fits(
    hashes: Map<Seq<char>, Seq<char>>,
    current: Map<Seq<char>, Seq<char>>,
    report: VerificationValues,
)
    requires
        report@ == crate::verification::classify(hashes, current),
    ensures
        report_fits(hashes, report),
{
    assert forall|i: int| 0 <= i < report.matching_files.len() implies hashes.contains_key(
        (#[trigger] report.matching_files[i])@,
    ) by {
        assert(crate::set_diff::members(report.matching_files@).contains(
            report.matching_files[i].model(),
        ));
    }
    assert forall|i: int| 0 <= i < report.missing_files.len() implies hashes.contains_key(
        (#[trigger] report.missing_files[i])@,
    ) by {
        assert(crate::set_diff::members(report.missing_files@).contains(
            report.missing_files[i].model(),
        ));
    }
}

/// The lines that show tags with their mods, one tag after the other.
pub open spec fn tag_listing(glyphs: Glyphs, store: Store, tags: Seq<Tag>) -> Seq<
    Seq<(Seq<char>, Style)>,
>
    decreases tags.len(),
{
    if tags.len() == 0 {
        Seq::empty()
    } else {
        tag_listing(glyphs, store, tags.drop_last()) + tag_lines(
            glyphs,
            tags.last().tag@,
            names_of(
                store.mods@.filter(
                    meeting(LinkedTo { relations: &store.relations, tag_id: tags.last().id }),
                ),
            ),
        )
    }
}

/// The tags that a listing shows: all of them, or where labels are given,
/// those with one of the labels.
pub open spec fn listed_tags(store: Store, tags: Option<Vec<String>>) -> Seq<Tag> {
    match tags {
        Some(wanted) => store.tags@.filter(meeting(LabelAmong { labels: &wanted })),
        None => store.tags@,
    }
}

/// Lays out the tags of the store with the mods that have them: all tags,
/// or where labels are given, the tags with one of the labels.
pub fn tags(glyphs: &Glyphs, store: &Store, labels: &Option<Vec<String>>) -> (lines: Vec<
    Vec<Span>,
>)
    requires
        forall|i: int|
            0 <= i < store.tags.len() ==> vstd::utf8::encode_utf8(
                (#[trigger] store.tags[i]).tag@,
            ).len() + 2 <= usize::MAX,
    ensures
        lines_view(lines@) == tag_listing(*glyphs, *store, listed_tags(*store, *labels)),
{
    let listed = store.list_tags(labels);
    proof {
        match labels {
            Some(wanted) => {
                crate::filters::lemma_filter_rows(
                    store.tags@,
                    meeting(LabelAmong { labels: wanted }),
                );
            },
            None => {},
        }
    }
    let mut lines: Vec<Vec<Span>> = Vec::new();
    let mut i: usize = 0;
    proof {
        assert(listed@.take(0) =~= Seq::<Tag>::empty());
        assert(lines_view(lines@) =~= tag_listing(*glyphs, *store, listed@.take(0)));
    }
    while i < listed.len()
        invariant
            i <= listed.len(),
            forall|j: int| 0 <= j < listed.len() ==> store.tags@.contains(#[trigger] listed[j]),
            forall|j: int|
                0 <= j < store.tags.len() ==> vstd::utf8::encode_utf8(
                    (#[trigger] store.tags[j]).tag@,
                ).len() + 2 <= usize::MAX,
            lines_view(lines@) == tag_listing(*glyphs, *store, listed@.take(i as int)),
        decreases listed.len() - i,
    {
        proof {
            assert(listed@.take(i + 1).drop_last() =~= listed@.take(i as int));
            assert(store.tags@.contains(listed[i as int]));
            let k = choose|k: int| 0 <= k < store.tags.len() && store.tags[k] == listed[i as int];
            assert(store.tags[k].tag@ == listed[i as int].tag@);
        }
        let mods = store.get_mods_for_tag(listed[i].id);
        append_lines(&mut lines, render_tag(glyphs, &listed[i], &mods));
        i += 1;
    }
    proof {
        assert(listed@.take(i as int) =~= listed@);
    }
    lines
}

} // verus!
