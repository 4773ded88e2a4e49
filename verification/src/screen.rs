//! The double-buffered bitmap screen: 64 by 64 cells, each drawn as a square
//! of `SIZE_PX` by `SIZE_PX` pixels. Programs write to the frame buffer; what
//! was last drawn is what they read back. Showing the pixels in a window is
//! the host's part.
use vstd::prelude::*;
use crate::color::Color;

verus! {

/// Width and height of a cell in pixels.
pub const SIZE_PX: usize = 10;

/// Width of the screen in pixels.
pub const WIDTH: usize = 640;

/// Height of the screen in pixels.
pub const HEIGHT: usize = 640;

/// Number of pixels on the screen.
pub const PIXELS: usize = 409600;

/// A button of the game pad.
#[derive(Debug, Clone, Copy, PartialEq, Eq, Structural)]
pub enum Button {
    Up,
    Down,
    Left,
    Right,
    Z,
    X,
    /// Any other key, which no program reads.
    Other,
}

/// The bit of a button in the button state word.
pub open spec fn button_bit(b: Button) -> u8 {
    match b {
        Button::Up => 1,
        Button::Down => 2,
        Button::Left => 4,
        Button::Right => 8,
        Button::Z => 16,
        Button::X => 32,
        Button::Other => 0,
    }
}

/// The bit of `b` if it is among `keys`.
pub open spec fn bit_if_held(keys: Seq<Button>, b: Button) -> u8 {
    if keys.contains(b) { button_bit(b) } else { 0 }
}

/// The state word of the buttons among `keys`: bit 0 up, 1 down, 2 left,
/// 3 right, 4 Z, 5 X.
pub open spec fn buttons_word(keys: Seq<Button>) -> u8 {
    bit_if_held(keys, Button::Up) | bit_if_held(keys, Button::Down) | bit_if_held(keys, Button::Left)
        | bit_if_held(keys, Button::Right) | bit_if_held(keys, Button::Z) | bit_if_held(
        keys,
        Button::X,
    )
}

/// The index of the pixel at column `px`, row `py`, in row-major order.
pub open spec fn pixel_index(px: int, py: int) -> int {
    px + py * WIDTH
}

/// The pixel at column `i`, row `j` of the cell at (`x`, `y`).
pub open spec fn cell_pixel(x: u8, y: u8, i: int, j: int) -> int {
    pixel_index(x * SIZE_PX + i, y * SIZE_PX + j)
}

/// Whether pixel `k` belongs to the first `ni` columns of the cell at (`x`, `y`).
pub open spec fn in_cell(k: int, x: u8, y: u8, ni: int) -> bool {
    exists|i: int, j: int|
        0 <= i < ni && 0 <= j < SIZE_PX && k == #[trigger] cell_pixel(x, y, i, j)
}

/// Whether pixel `k` is drawn by the first columns, and the first `nj` pixels of
/// column `ni`, of the cell at (`x`, `y`).
pub open spec fn in_cell_part(k: int, x: u8, y: u8, ni: int, nj: int) -> bool {
    in_cell(k, x, y, ni) || exists|j: int|
        0 <= j < nj && k == #[trigger] cell_pixel(x, y, ni, j)
}

/// Whether every pixel of the cell at (`x`, `y`) lies on the screen.
pub open spec fn cell_on_screen(x: u8, y: u8) -> bool {
    pixel_index(x * SIZE_PX + SIZE_PX - 1, y * SIZE_PX + SIZE_PX - 1) < PIXELS
}

/// The frame buffer after painting the cell at (`x`, `y`) with `color`.
pub open spec fn painted(buf: Seq<Color>, x: u8, y: u8, color: Color) -> Seq<Color> {
    Seq::new(buf.len(), |k: int| if in_cell(k, x, y, SIZE_PX as int) { color } else { buf[k] })
}

/// What is plotted at a cell is what a read of the cell gives once the frame
/// is drawn: the pixel that a read looks at lies in the painted cell, and
/// the pixels outside the cell keep their colours.
pub proof fn lemma_plot_then_read(buf: Seq<Color>, x: u8, y: u8, color: Color, k: int)
    requires
        buf.len() == PIXELS,
        cell_on_screen(x, y),
        0 <= k < PIXELS,
    ensures
        pixel_index(x * SIZE_PX, y * SIZE_PX) < PIXELS,
        painted(buf, x, y, color)[pixel_index(x * SIZE_PX, y * SIZE_PX)] == color,
        !in_cell(k, x, y, SIZE_PX as int) ==> painted(buf, x, y, color)[k] == buf[k],
{
    assert(cell_pixel(x, y, 0, 0) == pixel_index(x * SIZE_PX, y * SIZE_PX));
    assert(in_cell(pixel_index(x * SIZE_PX, y * SIZE_PX), x, y, SIZE_PX as int));
}

/// Double-buffered screen.
/// We write to the buffer first, then copy to the screen.
/// We can read what's currently written to the screen but not the buffer.
pub struct Screen {
    /// The buffer
    buffer: Vec<Color>,
    /// The screen
    screen: Vec<Color>,
}

impl Screen {
    /// The frame buffer, pixel by pixel in row-major order.
    pub closed spec fn frame(&self) -> Seq<Color> {
        self.buffer@
    }

    /// What was last drawn, pixel by pixel in row-major order.
    pub closed spec fn shown(&self) -> Seq<Color> {
        self.screen@
    }

    /// Both buffers cover the screen.
    pub open spec fn wf(&self) -> bool {
        self.frame().len() == PIXELS && self.shown().len() == PIXELS
    }

    /// A black screen with a black frame buffer.
    pub fn new() -> (s: Screen)
        ensures
            s.wf(),
            s.frame() == Seq::new(PIXELS as nat, |k: int| Color::Black),
            s.shown() == Seq::new(PIXELS as nat, |k: int| Color::Black),
    {
        let s = Screen { buffer: vec![Color::Black; PIXELS], screen: vec![Color::Black; PIXELS] };
        assert(s.frame() =~= Seq::new(PIXELS as nat, |k: int| Color::Black));
        assert(s.shown() =~= Seq::new(PIXELS as nat, |k: int| Color::Black));
        s
    }

    /// Writes a pixel with the given color to the frame buffer.
    pub fn plot(&mut self, x: u8, y: u8, color: Color)
        requires
            old(self).wf(),
            cell_on_screen(x, y),
        ensures
            final(self).wf(),
            final(self).frame() == painted(old(self).frame(), x, y, color),
            final(self).shown() == old(self).shown(),
            screen_effect(*old(self), ScreenOp::Plot(x, y, color), *final(self)),
    {
        let pos_x = x as usize;
        let pos_y = y as usize;
        let ghost old_buf = self.buffer@;
        // update buffer with new pixel according to size_px
        let mut i: usize = 0;
        while i < SIZE_PX
            invariant
                i <= SIZE_PX,
                self.buffer@.len() == PIXELS,
                self.screen@ == old(self).screen@,
                old_buf == old(self).buffer@,
                cell_on_screen(x, y),
                pos_x == x,
                pos_y == y,
                forall|k: int|
                    0 <= k < PIXELS ==> #[trigger] self.buffer@[k] == (if in_cell(k, x, y, i as int) {
                        color
                    } else {
                        old_buf[k]
                    }),
            decreases SIZE_PX - i,
        {
            let mut j: usize = 0;
            while j < SIZE_PX
                invariant
                    i < SIZE_PX,
                    j <= SIZE_PX,
                    self.buffer@.len() == PIXELS,
                    self.screen@ == old(self).screen@,
                    old_buf == old(self).buffer@,
                    cell_on_screen(x, y),
                    pos_x == x,
                    pos_y == y,
                    forall|k: int|
                        0 <= k < PIXELS ==> #[trigger] self.buffer@[k] == (if in_cell_part(
                            k,
                            x,
                            y,
                            i as int,
                            j as int,
                        ) {
                            color
                        } else {
                            old_buf[k]
                        }),
                decreases SIZE_PX - j,
            {
                let idx = (pos_x * SIZE_PX + i) + (pos_y * SIZE_PX + j) * WIDTH;
                let ghost prev = self.buffer@;
                self.buffer.set(idx, color);
                proof {
                    assert forall|k: int| 0 <= k < PIXELS implies #[trigger] self.buffer@[k] == (
                    if in_cell_part(k, x, y, i as int, j + 1) {
                        color
                    } else {
                        old_buf[k]
                    }) by {
                        if k == idx {
                            assert(k == cell_pixel(x, y, i as int, j as int));
                            assert(in_cell_part(k, x, y, i as int, j + 1));
                        } else {
                            assert(self.buffer@[k] == prev[k]);
                            if in_cell_part(k, x, y, i as int, j + 1) && !in_cell(k, x, y, i as int) {
                                let jj = choose|jj: int|
                                    0 <= jj < j + 1 && k == #[trigger] cell_pixel(x, y, i as int, jj);
                                assert(jj != j);
                                assert(in_cell_part(k, x, y, i as int, j as int));
                            }
                        }
                    }
                }
                j = j + 1;
            }
            proof {
                assert forall|k: int| 0 <= k < PIXELS implies #[trigger] self.buffer@[k] == (
                if in_cell(k, x, y, i + 1) {
                    color
                } else {
                    old_buf[k]
                }) by {
                    if in_cell_part(k, x, y, i as int, SIZE_PX as int) {
                        if !in_cell(k, x, y, i as int) {
                            let jj = choose|jj: int|
                                0 <= jj < SIZE_PX && k == #[trigger] cell_pixel(x, y, i as int, jj);
                            assert(in_cell(k, x, y, i + 1));
                        }
                    }
                    if in_cell(k, x, y, i + 1) {
                        let (ii, jj) = choose|ii: int, jj: int|
                            0 <= ii < i + 1 && 0 <= jj < SIZE_PX && k == #[trigger] cell_pixel(x, y, ii, jj);
                        if ii < i {
                            assert(in_cell(k, x, y, i as int));
                        } else {
                            assert(in_cell_part(k, x, y, i as int, SIZE_PX as int));
                        }
                    }
                }
            }
            i = i + 1;
        }
        assert(self.buffer@ =~= painted(old_buf, x, y, color));
    }

    /// Reads a pixel from the screen.
    pub fn read_pixel(&self, x: u8, y: u8) -> (c: Color)
        requires
            self.wf(),
            pixel_index(x * SIZE_PX, y * SIZE_PX) < PIXELS,
        ensures
            c == self.shown()[pixel_index(x * SIZE_PX, y * SIZE_PX)],
    {
        let pos_x = x as usize;
        let pos_y = y as usize;
        self.screen[(pos_x * SIZE_PX) + (pos_y * SIZE_PX) * WIDTH]
    }

    /// Copies the frame buffer to the screen.
    pub fn draw(&mut self)
        requires
            old(self).wf(),
        ensures
            final(self).wf(),
            final(self).shown() == old(self).frame(),
            final(self).frame() == old(self).frame(),
            screen_effect(*old(self), ScreenOp::Draw, *final(self)),
    {
        self.screen = self.buffer.clone();
    }

    /// Copies the frame buffer to the screen and clears the frame buffer.
    pub fn flip(&mut self)
        requires
            old(self).wf(),
        ensures
            final(self).wf(),
            final(self).shown() == old(self).frame(),
            final(self).frame() == Seq::new(PIXELS as nat, |k: int| Color::Black),
            screen_effect(*old(self), ScreenOp::Flip, *final(self)),
    {
        self.draw();
        self.buffer = vec![Color::Black; PIXELS];
        assert(self.buffer@ =~= Seq::new(PIXELS as nat, |k: int| Color::Black));
    }

    /// The state word of the held buttons.
    pub fn buttons(keys: &[Button]) -> (w: u8)
        ensures
            w == buttons_word(keys@),
    {
        let mut up: u8 = 0;
        let mut down: u8 = 0;
        let mut left: u8 = 0;
        let mut right: u8 = 0;
        let mut z: u8 = 0;
        let mut x: u8 = 0;
        let mut i: usize = 0;
        while i < keys.len()
            invariant
                i <= keys@.len(),
                up == bit_if_held(keys@.subrange(0, i as int), Button::Up),
                down == bit_if_held(keys@.subrange(0, i as int), Button::Down),
                left == bit_if_held(keys@.subrange(0, i as int), Button::Left),
                right == bit_if_held(keys@.subrange(0, i as int), Button::Right),
                z == bit_if_held(keys@.subrange(0, i as int), Button::Z),
                x == bit_if_held(keys@.subrange(0, i as int), Button::X),
            decreases keys@.len() - i,
        {
            let ghost pre = keys@.subrange(0, i as int);
            let ghost next = keys@.subrange(0, i + 1);
            assert(next == pre.push(keys@[i as int]));
            assert forall|b: Button| #[trigger] next.contains(b) == (pre.contains(b) || keys@[i as int] == b) by {
                if next.contains(b) {
                    let k = choose|k: int| 0 <= k < next.len() && next[k] == b;
                    if k < pre.len() {
                        assert(pre[k] == b);
                    }
                }
                if pre.contains(b) {
                    let k = choose|k: int| 0 <= k < pre.len() && pre[k] == b;
                    assert(next[k] == b);
                }
                if keys@[i as int] == b {
                    assert(next[i as int] == b);
                }
            }
            match keys[i] {
                Button::Up => up = 1,
                Button::Down => down = 2,
                Button::Left => left = 4,
                Button::Right => right = 8,
                Button::Z => z = 16,
                Button::X => x = 32,
                Button::Other => {},
            }
            i = i + 1;
        }
        assert(keys@.subrange(0, keys@.len() as int) == keys@);
        up | down | left | right | z | x
    }

    /// The state word of the buttons whose press was just reported: the keys
    /// pressed since the window was last polled, each press reported once.
    pub fn buttonsp(pressed: &[Button]) -> (w: u8)
        ensures
            w == buttons_word(pressed@),
    {
        Screen::buttons(pressed)
    }

    /// The colour of pixel `k` of the screen.
    pub fn shown_pixel(&self, k: usize) -> (c: Color)
        requires
            self.wf(),
            k < PIXELS,
        ensures
            c == self.shown()[k as int],
    {
        self.screen[k]
    }

    /// Whether anything was written to the frame buffer since it was last cleared.
    pub fn frame_has_content(&self) -> (b: bool)
        requires
            self.wf(),
        ensures
            b == exists|k: int| 0 <= k < PIXELS && self.frame()[k] != Color::Black,
    {
        let mut k: usize = 0;
        while k < self.buffer.len()
            invariant
                self.buffer@.len() == PIXELS,
                k <= PIXELS,
                forall|m: int| 0 <= m < k ==> self.buffer@[m] == Color::Black,
            decreases PIXELS - k,
        {
            if self.buffer[k] != Color::Black {
                return true;
            }
            k = k + 1;
        }
        false
    }
}

/// One operation on the screen: plotting a cell, drawing the frame buffer, or
/// flipping it.
pub enum ScreenOp {
    Plot(u8, u8, Color),
    Draw,
    Flip,
}

/// What `op` does: `new` is the screen after it. Plotting paints the cell in
/// the frame buffer only; drawing and flipping show the frame buffer, and
/// flipping then clears it.
pub open spec fn screen_effect(old: Screen, op: ScreenOp, new: Screen) -> bool {
    match op {
        ScreenOp::Plot(x, y, c) => new.frame() == painted(old.frame(), x, y, c) && new.shown() == old.shown(),
        ScreenOp::Draw => new.shown() == old.frame() && new.frame() == old.frame(),
        ScreenOp::Flip => new.shown() == old.frame() && new.frame() == Seq::new(PIXELS as nat, |k: int| Color::Black),
    }
}

/// `states` are the screens that the operations `ops` pass through, one
/// after the other.
pub open spec fn screen_runs(states: Seq<Screen>, ops: Seq<ScreenOp>) -> bool {
    &&& states.len() == ops.len() + 1
    &&& forall|i: int| 0 <= i < ops.len() ==> screen_effect(states[i], #[trigger] ops[i], states[i + 1])
}

/// Whether `op` plots a cell that does not hold pixel `p`.
pub open spec fn plots_elsewhere(op: ScreenOp, p: int) -> bool {
    op matches ScreenOp::Plot(x, y, _) && !in_cell(p, x, y, SIZE_PX as int)
}

proof fn lemma_plotted_pixel_kept(
    states: Seq<Screen>,
    ops: Seq<ScreenOp>,
    i: int,
    x: u8,
    y: u8,
    c: Color,
    j: int,
)
    requires
        screen_runs(states, ops),
        0 <= i < j <= ops.len(),
        states[i].wf(),
        cell_on_screen(x, y),
        ops[i] == ScreenOp::Plot(x, y, c),
        forall|m: int| i < m < j ==> plots_elsewhere(#[trigger] ops[m], pixel_index(x * SIZE_PX, y * SIZE_PX)),
    ensures
        states[j].frame().len() == PIXELS,
        states[j].frame()[pixel_index(x * SIZE_PX, y * SIZE_PX)] == c,
        states[j].shown() == states[i].shown(),
    decreases j - i,
{
    let p = pixel_index(x * SIZE_PX, y * SIZE_PX);
    lemma_plot_then_read(states[i].frame(), x, y, c, 0);
    if j == i + 1 {
        assert(screen_effect(states[i], ops[i], states[i + 1]));
    } else {
        lemma_plotted_pixel_kept(states, ops, i, x, y, c, j - 1);
        assert(screen_effect(states[j - 1], ops[j - 1], states[j]));
        assert(plots_elsewhere(ops[j - 1], p));
    }
}

/// A read sees what was drawn, not what was plotted since: plotting a cell
/// leaves the shown screen as it was, and once the frame is drawn or
/// flipped, after plots of other cells, the pixel that a read of the cell
/// looks at has the plotted colour.
pub proof fn lemma_plot_shows_after_draw(
    states: Seq<Screen>,
    ops: Seq<ScreenOp>,
    i: int,
    k: int,
    x: u8,
    y: u8,
    c: Color,
)
    requires
        screen_runs(states, ops),
        0 <= i < k < ops.len(),
        states[i].wf(),
        cell_on_screen(x, y),
        ops[i] == ScreenOp::Plot(x, y, c),
        forall|m: int| i < m < k ==> plots_elsewhere(#[trigger] ops[m], pixel_index(x * SIZE_PX, y * SIZE_PX)),
        ops[k] is Draw || ops[k] is Flip,
    ensures
        forall|j: int| i <= j <= k ==> #[trigger] states[j].shown() == states[i].shown(),
        states[k + 1].shown()[pixel_index(x * SIZE_PX, y * SIZE_PX)] == c,
{
    assert forall|j: int| i <= j <= k implies #[trigger] states[j].shown() == states[i].shown() by {
        if j > i {
            lemma_plotted_pixel_kept(states, ops, i, x, y, c, j);
        }
    }
    lemma_plotted_pixel_kept(states, ops, i, x, y, c, k);
    assert(screen_effect(states[k], ops[k], states[k + 1]));
}

} // verus!
