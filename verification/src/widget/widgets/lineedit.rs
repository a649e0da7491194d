//! A line of text that can be edited, with a cursor that marks where.

use vstd::prelude::*;
use vstd::utf8::encode_utf8;
use crate::base::grapheme_cluster::{
    GraphemeCluster, columns_of, display_width, grapheme_clusters, graphemes, joined,
    string_of_char, texts,
};
use crate::base::style::{ModifyMode, Style, StyleModifier};
use crate::base::surface::{CellView, Grid, Surface, blank, has_size};
use crate::base::window::{Window, same_outside};
use crate::input::{Editable, Navigatable, OperationResult, Writable};
use crate::widget::demand::{Demand, Demand2D};
use crate::widget::{RenderingHints, Widget};

verus! {

/// A widget that shows one line of text and a cursor in it. The cursor
/// stands on a grapheme cluster of the text, or behind the last.
pub struct LineEdit {
    pub text: String,
    pub cursor_pos: usize,
    pub cursor_style_active: StyleModifier,
    pub cursor_style_inactive: StyleModifier,
}

/// The text of the given clusters with `addition` put in before cluster
/// `pos`, or behind the last where there is no such cluster.
pub open spec fn spliced(clusters: Seq<Seq<char>>, pos: int, addition: Seq<char>) -> Seq<char> {
    let at = if pos < clusters.len() {
        pos
    } else {
        clusters.len() as int
    };
    joined(clusters.take(at)) + addition + joined(clusters.skip(at))
}

/// The text of the given clusters without cluster `pos`, or of all of them
/// where there is no such cluster.
pub open spec fn cut(clusters: Seq<Seq<char>>, pos: int) -> Seq<char> {
    if pos < clusters.len() {
        joined(clusters.take(pos)) + joined(clusters.skip(pos + 1))
    } else {
        joined(clusters)
    }
}

/// The text with `addition` put in before its grapheme cluster `pos`, or
/// behind its end where it has no such cluster.
pub open spec fn inserted(text: Seq<char>, pos: int, addition: Seq<char>) -> Seq<char> {
    spliced(grapheme_clusters(text), pos, addition)
}

/// The text without its grapheme cluster `pos`, or the text as it is where it
/// has no such cluster.
pub open spec fn erased(text: Seq<char>, pos: int) -> Seq<char> {
    cut(grapheme_clusters(text), pos)
}

/// The number of grapheme clusters that are cut off on the left, so that the
/// cursor and one cell behind it stay in view.
pub open spec fn hidden_clusters(count: int, cursor: int, width: int) -> int {
    let upto = if cursor < count {
        cursor + 1
    } else {
        count
    };
    if upto >= width {
        upto - width + 1
    } else {
        0
    }
}

/// What the line shows in its cell `i`, counted from the beginning of the
/// text: a grapheme cluster of the text, in the style of the cursor if the
/// cursor stands on it; or, just behind the text, the cursor on a blank.
pub open spec fn shown_cell(
    clusters: Seq<Seq<char>>,
    cursor: int,
    plain: Style,
    marked: Style,
    i: int,
) -> Option<CellView> {
    if 0 <= i < clusters.len() {
        Some(
            CellView {
                symbol: clusters[i],
                style: if i == cursor {
                    marked
                } else {
                    plain
                },
            },
        )
    } else if i == clusters.len() && cursor >= clusters.len() {
        Some(blank(marked))
    } else {
        None
    }
}

/// The grid after the line is shown in the first row of `window`.
pub open spec fn with_line(
    grid: Grid,
    window: Window,
    clusters: Seq<Seq<char>>,
    cursor: int,
    marked: Style,
) -> Grid {
    let hidden = hidden_clusters(clusters.len() as int, cursor, window.width as int);
    Seq::new(
        grid.len(),
        |y: int|
            Seq::new(
                grid[y].len(),
                |x: int|
                    if y == window.y && window.height > 0 && window.x <= x < window.x
                        + window.width {
                        match shown_cell(
                            clusters,
                            cursor,
                            window.default_style,
                            marked,
                            x - window.x + hidden,
                        ) {
                            Some(cell) => cell,
                            None => grid[y][x],
                        }
                    } else {
                        grid[y][x]
                    },
            ),
    )
}

/// The texts of `parts` from `from` up to `to`, one after another.
pub fn join(parts: &Vec<String>, from: usize, to: usize) -> (text: String)
    requires
        from <= to <= parts@.len(),
    ensures
        text@ == joined(texts(parts@).subrange(from as int, to as int)),
{
    let mut text = String::new();
    let mut i = from;
    proof {
        assert(texts(parts@).subrange(from as int, from as int) =~= Seq::<Seq<char>>::empty());
    }
    while i < to
        invariant
            from <= i <= to <= parts@.len(),
            text@ == joined(texts(parts@).subrange(from as int, i as int)),
        decreases to - i,
    {
        text.append(parts[i].as_str());
        proof {
            let longer = texts(parts@).subrange(from as int, i + 1);
            assert(longer.drop_last() =~= texts(parts@).subrange(from as int, i as int));
            assert(longer.last() == parts@[i as int]@);
        }
        i += 1;
    }
    text
}

/// The text of the given clusters with `addition` put in before cluster
/// `pos`, or behind the last where there is no such cluster.
pub fn splice(clusters: &Vec<String>, pos: usize, addition: &str) -> (text: String)
    ensures
        text@ == spliced(texts(clusters@), pos as int, addition@),
{
    let at = if pos < clusters.len() {
        pos
    } else {
        clusters.len()
    };
    let mut text = join(clusters, 0, at);
    text.append(addition);
    let behind = join(clusters, at, clusters.len());
    text.append(behind.as_str());
    text
}

/// The text of the given clusters without cluster `pos`, or of all of them
/// where there is no such cluster.
pub fn cut_out(clusters: &Vec<String>, pos: usize) -> (text: String)
    ensures
        text@ == cut(texts(clusters@), pos as int),
{
    if pos < clusters.len() {
        let mut text = join(clusters, 0, pos);
        let behind = join(clusters, pos + 1, clusters.len());
        text.append(behind.as_str());
        text
    } else {
        let text = join(clusters, 0, clusters.len());
        proof {
            assert(texts(clusters@).subrange(0, clusters@.len() as int) =~= texts(clusters@));
        }
        text
    }
}

/// Shows a line of the given clusters in the first row of `window`, shifted
/// to the left as far as it takes to keep the cursor in view, with the
/// cursor in the style `marked` and all else in the style of the window.
pub fn draw_line(
    surface: &mut Surface,
    window: &Window,
    clusters: &Vec<String>,
    cursor_pos: usize,
    marked: Style,
)
    requires
        old(surface).wf(),
        window.fits(old(surface).width as int, old(surface).height as int),
    ensures
        final(surface).wf(),
        final(surface).width == old(surface).width,
        final(surface).height == old(surface).height,
        final(surface)@ == with_line(
            old(surface)@,
            *window,
            texts(clusters@),
            cursor_pos as int,
            marked,
        ),
        same_outside(old(surface)@, final(surface)@, *window),
{
    let ghost before = surface@;
    proof {
        old(surface).lemma_view_has_size();
        assert(texts(clusters@).len() == clusters@.len());
    }
    let count = clusters.len();
    let upto = if cursor_pos < count {
        cursor_pos + 1
    } else {
        count
    };
    let hidden = if upto >= window.width && window.width > 0 {
        upto - (window.width - 1)
    } else {
        0
    };
    let ghost shown = texts(clusters@);
    let ghost expected = with_line(before, *window, shown, cursor_pos as int, marked);
    if window.height > 0 {
        let mut column: usize = 0;
        while column < window.width
            invariant
                column <= window.width,
                window.height > 0,
                surface.wf(),
                surface.width == old(surface).width,
                surface.height == old(surface).height,
                window.fits(surface.width as int, surface.height as int),
                has_size(before, surface.width as int, surface.height as int),
                count == clusters@.len(),
                shown == texts(clusters@),
                window.width > 0 ==> hidden == hidden_clusters(
                    count as int,
                    cursor_pos as int,
                    window.width as int,
                ),
                forall|x: int, y: int|
                    0 <= x < surface.width && 0 <= y < surface.height
                        ==> #[trigger] surface@[y][x] == if y == window.y && window.x <= x
                        < window.x + column {
                        match shown_cell(
                            shown,
                            cursor_pos as int,
                            window.default_style,
                            marked,
                            x - window.x + hidden,
                        ) {
                            Some(cell) => cell,
                            None => before[y][x],
                        }
                    } else {
                        before[y][x]
                    },
            decreases window.width - column,
        {
            let i = column + hidden;
            let ghost drawn = surface@;
            proof {
                surface.lemma_view_has_size();
            }
            if i < count {
                let style = if i == cursor_pos {
                    marked
                } else {
                    window.default_style
                };
                window.put(
                    surface,
                    column,
                    0,
                    GraphemeCluster { text: clusters[i].clone() },
                    style,
                );
            } else if i == count && cursor_pos >= count {
                window.put(surface, column, 0, GraphemeCluster::space(), marked);
            }
            proof {
                assert forall|x: int, y: int|
                    0 <= x < surface.width && 0 <= y < surface.height implies (
                #[trigger] surface@[y][x]) == if y == window.y && window.x <= x < window.x
                    + column + 1 {
                    match shown_cell(
                        shown,
                        cursor_pos as int,
                        window.default_style,
                        marked,
                        x - window.x + hidden,
                    ) {
                        Some(cell) => cell,
                        None => before[y][x],
                    }
                } else {
                    before[y][x]
                } by {
                    assert(drawn[y].len() == surface.width);
                    if y == window.y && x == window.x + column {
                    } else {
                        assert(surface@[y][x] == drawn[y][x]);
                    }
                }
            }
            column += 1;
        }
    }
    proof {
        surface.lemma_view_has_size();
        assert(surface@.len() == expected.len());
        assert forall|y: int| 0 <= y < surface@.len() implies surface@[y] == expected[y] by {
            assert(surface@[y].len() == expected[y].len());
            assert forall|x: int| 0 <= x < surface@[y].len() implies surface@[y][x]
                == expected[y][x] by {}
            assert(surface@[y] =~= expected[y]);
        }
        assert(surface@ =~= expected);
    }
}

impl LineEdit {
    /// The style in which the cursor is shown.
    pub open spec fn marked_style(self, plain: Style, hints: RenderingHints) -> Style {
        if hints.active {
            self.cursor_style_active.applied(plain)
        } else {
            self.cursor_style_inactive.applied(plain)
        }
    }

    /// An empty line whose cursor is shown inverted while the line has the
    /// user's attention, and underlined otherwise.
    pub fn new() -> (line: LineEdit)
        ensures
            line.text@ == Seq::<char>::empty(),
            line.cursor_pos == 0,
            line.cursor_style_active == (StyleModifier {
                invert: ModifyMode::Toggle,
                ..StyleModifier::unchanged()
            }),
            line.cursor_style_inactive == (StyleModifier {
                underline: ModifyMode::Yes,
                ..StyleModifier::unchanged()
            }),
    {
        Self::with_cursor_styles(
            StyleModifier::new().invert(ModifyMode::Toggle),
            StyleModifier::new().underline(ModifyMode::Yes),
        )
    }

    /// An empty line with the given styles for the cursor.
    pub fn with_cursor_styles(active: StyleModifier, inactive: StyleModifier) -> (line: LineEdit)
        ensures
            line.text@ == Seq::<char>::empty(),
            line.cursor_pos == 0,
            line.cursor_style_active == active,
            line.cursor_style_inactive == inactive,
    {
        LineEdit {
            text: String::new(),
            cursor_pos: 0,
            cursor_style_active: active,
            cursor_style_inactive: inactive,
        }
    }

    /// The text of the line.
    pub fn get(&self) -> (text: &str)
        ensures
            text@ == self.text@,
    {
        self.text.as_str()
    }

    /// Replaces the text and puts the cursor behind it.
    pub fn set(&mut self, text: &str)
        ensures
            final(self).text@ == text@,
            final(self).cursor_pos == grapheme_clusters(text@).len(),
            final(self).cursor_style_active == old(self).cursor_style_active,
            final(self).cursor_style_inactive == old(self).cursor_style_inactive,
    {
        self.text = text.to_owned();
        self.move_cursor_to_end_of_line();
    }

    /// Puts the cursor behind the text.
    pub fn move_cursor_to_end_of_line(&mut self)
        ensures
            final(self).cursor_pos == grapheme_clusters(old(self).text@).len(),
            final(self).text == old(self).text,
            final(self).cursor_style_active == old(self).cursor_style_active,
            final(self).cursor_style_inactive == old(self).cursor_style_inactive,
    {
        let clusters = graphemes(self.text.as_str());
        proof {
            assert(texts(clusters@).len() == clusters@.len());
        }
        self.cursor_pos = clusters.len();
    }

    /// Puts the cursor on the first grapheme cluster.
    pub fn move_cursor_to_beginning_of_line(&mut self)
        ensures
            final(self).cursor_pos == 0,
            final(self).text == old(self).text,
            final(self).cursor_style_active == old(self).cursor_style_active,
            final(self).cursor_style_inactive == old(self).cursor_style_inactive,
    {
        self.cursor_pos = 0;
    }

    /// Moves the cursor one grapheme cluster to the right, unless it stands
    /// behind the text already.
    pub fn move_cursor_right(&mut self) -> (moved: Result<(), ()>)
        ensures
            moved is Ok <==> old(self).cursor_pos < grapheme_clusters(old(self).text@).len(),
            final(self).cursor_pos == if moved is Ok {
                (old(self).cursor_pos + 1) as usize
            } else {
                old(self).cursor_pos
            },
            final(self).text == old(self).text,
            final(self).cursor_style_active == old(self).cursor_style_active,
            final(self).cursor_style_inactive == old(self).cursor_style_inactive,
    {
        let clusters = graphemes(self.text.as_str());
        proof {
            assert(texts(clusters@).len() == clusters@.len());
        }
        if self.cursor_pos < clusters.len() {
            self.cursor_pos = self.cursor_pos + 1;
            Ok(())
        } else {
            Err(())
        }
    }

    /// Moves the cursor one grapheme cluster to the left, unless it stands
    /// on the first already.
    pub fn move_cursor_left(&mut self) -> (moved: Result<(), ()>)
        ensures
            moved is Ok <==> old(self).cursor_pos > 0,
            final(self).cursor_pos == if moved is Ok {
                (old(self).cursor_pos - 1) as usize
            } else {
                old(self).cursor_pos
            },
            final(self).text == old(self).text,
            final(self).cursor_style_active == old(self).cursor_style_active,
            final(self).cursor_style_inactive == old(self).cursor_style_inactive,
    {
        if self.cursor_pos > 0 {
            self.cursor_pos -= 1;
            Ok(())
        } else {
            Err(())
        }
    }

    /// Puts `text` into the line where the cursor stands. The cursor stays
    /// at its place.
    pub fn insert(&mut self, text: &str)
        ensures
            final(self).text@ == inserted(old(self).text@, old(self).cursor_pos as int, text@),
            final(self).cursor_pos == old(self).cursor_pos,
            final(self).cursor_style_active == old(self).cursor_style_active,
            final(self).cursor_style_inactive == old(self).cursor_style_inactive,
    {
        let clusters = graphemes(self.text.as_str());
        self.text = splice(&clusters, self.cursor_pos, text);
    }

    /// Takes the grapheme cluster `pos` out of the line. Fails where `pos`
    /// is not below the number of bytes of the text.
    pub fn erase_symbol_at(&mut self, pos: usize) -> (done: Result<(), ()>)
        ensures
            done is Ok <==> pos < encode_utf8(old(self).text@).len(),
            final(self).text@ == if done is Ok {
                erased(old(self).text@, pos as int)
            } else {
                old(self).text@
            },
            pos >= grapheme_clusters(old(self).text@).len() ==> final(self).text@ == old(self).text@,
            final(self).cursor_pos == old(self).cursor_pos,
            final(self).cursor_style_active == old(self).cursor_style_active,
            final(self).cursor_style_inactive == old(self).cursor_style_inactive,
    {
        if pos < self.text.as_str().as_bytes().len() {
            let clusters = graphemes(self.text.as_str());
            self.text = cut_out(&clusters, pos);
            Ok(())
        } else {
            Err(())
        }
    }
}

impl Widget for LineEdit {
    /// One row, and at least as many columns as the text takes and one more
    /// for the cursor behind it.
    open spec fn demand(&self) -> Demand2D {
        let columns = display_width(self.text@);
        Demand2D {
            width: Demand {
                min: if columns < usize::MAX {
                    (columns + 1) as usize
                } else {
                    usize::MAX
                },
                max: None,
            },
            height: Demand { min: 1, max: Some(1) },
        }
    }

    /// The text in the first row of the window, shifted to the left as far as
    /// it takes to keep the cursor in view, with the cursor in its style.
    open spec fn rendered(&self, grid: Grid, window: Window, hints: RenderingHints) -> Grid {
        with_line(
            grid,
            window,
            grapheme_clusters(self.text@),
            self.cursor_pos as int,
            self.marked_style(window.default_style, hints),
        )
    }

    fn space_demand(&self) -> (demand: Demand2D) {
        let columns = columns_of(self.text.as_str());
        let width = if columns < usize::MAX {
            columns + 1
        } else {
            usize::MAX
        };
        Demand2D { width: Demand::at_least(width), height: Demand::exact(1) }
    }

    fn draw(&self, surface: &mut Surface, window: Window, hints: RenderingHints) {
        let clusters = graphemes(self.text.as_str());
        let cursor_style = if hints.active {
            self.cursor_style_active.apply(window.default_style)
        } else {
            self.cursor_style_inactive.apply(window.default_style)
        };
        draw_line(surface, &window, &clusters, self.cursor_pos, cursor_style);
    }
}

impl Navigatable for LineEdit {
    /// A line has nothing above it.
    fn move_up(&mut self) -> (moved: OperationResult)
        ensures
            moved is Err,
            *final(self) == *old(self),
    {
        Err(())
    }

    /// A line has nothing below it.
    fn move_down(&mut self) -> (moved: OperationResult)
        ensures
            moved is Err,
            *final(self) == *old(self),
    {
        Err(())
    }

    /// Moves the cursor one grapheme cluster to the left, if it can.
    fn move_left(&mut self) -> (moved: OperationResult)
        ensures
            moved is Ok <==> old(self).cursor_pos > 0,
            final(self).cursor_pos == if moved is Ok {
                (old(self).cursor_pos - 1) as usize
            } else {
                old(self).cursor_pos
            },
            final(self).text == old(self).text,
    {
        self.move_cursor_left()
    }

    /// Moves the cursor one grapheme cluster to the right, if it can.
    fn move_right(&mut self) -> (moved: OperationResult)
        ensures
            moved is Ok <==> old(self).cursor_pos < grapheme_clusters(old(self).text@).len(),
            final(self).cursor_pos == if moved is Ok {
                (old(self).cursor_pos + 1) as usize
            } else {
                old(self).cursor_pos
            },
            final(self).text == old(self).text,
    {
        self.move_cursor_right()
    }
}

impl Writable for LineEdit {
    /// Puts a character into the line where the cursor stands and moves the
    /// cursor behind it. A line takes no line feed.
    fn write(&mut self, c: char) -> (written: OperationResult)
        ensures
            c == '\n' ==> written is Err && *final(self) == *old(self),
            c != '\n' ==> final(self).text@ == inserted(
                old(self).text@,
                old(self).cursor_pos as int,
                seq![c],
            ),
            c != '\n' ==> (written is Ok <==> old(self).cursor_pos < grapheme_clusters(
                final(self).text@,
            ).len()),
            c != '\n' ==> final(self).cursor_pos == if written is Ok {
                (old(self).cursor_pos + 1) as usize
            } else {
                old(self).cursor_pos
            },
    {
        if c == '\n' {
            Err(())
        } else {
            let text = string_of_char(c);
            self.insert(text.as_str());
            self.move_cursor_right()
        }
    }
}

impl Editable for LineEdit {
    /// Takes out the grapheme cluster on which the cursor stands.
    fn delete_forwards(&mut self) -> (done: OperationResult)
        ensures
            done is Ok <==> old(self).cursor_pos < encode_utf8(old(self).text@).len(),
            final(self).text@ == if done is Ok {
                erased(old(self).text@, old(self).cursor_pos as int)
            } else {
                old(self).text@
            },
            final(self).cursor_pos == old(self).cursor_pos,
    {
        let to_erase = self.cursor_pos;
        self.erase_symbol_at(to_erase)
    }

    /// Takes out the grapheme cluster before the cursor and moves the cursor
    /// one to the left.
    fn delete_backwards(&mut self) -> (done: OperationResult)
        ensures
            done is Ok <==> old(self).cursor_pos > 0,
            done is Err ==> *final(self) == *old(self),
            done is Ok ==> final(self).cursor_pos == old(self).cursor_pos - 1,
            done is Ok ==> final(self).text@ == if old(self).cursor_pos - 1 < encode_utf8(
                old(self).text@,
            ).len() {
                erased(old(self).text@, old(self).cursor_pos - 1)
            } else {
                old(self).text@
            },
    {
        if self.cursor_pos > 0 {
            let to_erase = self.cursor_pos - 1;
            let _ = self.erase_symbol_at(to_erase);
            let _ = self.move_cursor_left();
            Ok(())
        } else {
            Err(())
        }
    }

    /// Puts the cursor on the first grapheme cluster.
    fn go_to_beginning_of_line(&mut self) -> (done: OperationResult)
        ensures
            done is Ok,
            final(self).cursor_pos == 0,
            final(self).text == old(self).text,
    {
        self.move_cursor_to_beginning_of_line();
        Ok(())
    }

    /// Puts the cursor behind the text.
    fn go_to_end_of_line(&mut self) -> (done: OperationResult)
        ensures
            done is Ok,
            final(self).cursor_pos == grapheme_clusters(old(self).text@).len(),
            final(self).text == old(self).text,
    {
        self.move_cursor_to_end_of_line();
        Ok(())
    }

    /// Empties the line, unless it is empty already.
    fn clear(&mut self) -> (done: OperationResult)
        ensures
            done is Ok <==> old(self).text@.len() > 0,
            done is Ok ==> final(self).text@ == Seq::<char>::empty() && final(self).cursor_pos
                == 0,
            done is Err ==> *final(self) == *old(self),
    {
        if self.text.as_str().is_empty() {
            Err(())
        } else {
            self.text = String::new();
            self.cursor_pos = 0;
            Ok(())
        }
    }
}

} // verus!
