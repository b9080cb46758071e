//! A compact spinner that shows progress during blocking boot work.
//!
//! UEFI boot services are single threaded and cooperative, so the spinner is
//! driven by explicit ticks between synchronous operations. In graphical
//! mode each frame is rendered here into a 48x48 pixel buffer, which the
//! caller copies to the screen as one small dirty rectangle; in text mode a
//! tick yields the next character of a `| / - \` cycle.

use vstd::prelude::*;
use crate::text::text_is;

verus! {

/// The edge of the square spinner buffer, in pixels.
pub const SIZE: usize = 48;
/// Radius of each dot.
pub const DOT_RADIUS: i32 = 3;
/// Number of dots on the ring.
pub const DOT_COUNT: usize = 12;
/// Number of text frames.
pub const TEXT_FRAMES: usize = 4;

/// How boot progress is shown.
#[derive(Clone, Copy, Debug, PartialEq, Eq, Structural)]
pub enum Mode {
    Off,
    Text,
    Graphical,
}

/// A framebuffer pixel.
#[derive(Clone, Copy, Debug, PartialEq, Eq, Structural)]
pub struct Pixel {
    pub red: u8,
    pub green: u8,
    pub blue: u8,
}

/// The colour behind the dots.
pub open spec fn background() -> Pixel {
    Pixel { red: 0, green: 0, blue: 0 }
}

/// The colour of the dots that are not highlighted.
pub open spec fn inactive() -> Pixel {
    Pixel { red: 48, green: 48, blue: 48 }
}

/// The colour of the highlighted dot.
pub open spec fn active() -> Pixel {
    Pixel { red: 255, green: 255, blue: 255 }
}

fn background_pixel() -> (p: Pixel)
    ensures
        p == background(),
{
    Pixel { red: 0, green: 0, blue: 0 }
}

fn inactive_pixel() -> (p: Pixel)
    ensures
        p == inactive(),
{
    Pixel { red: 48, green: 48, blue: 48 }
}

fn active_pixel() -> (p: Pixel)
    ensures
        p == active(),
{
    Pixel { red: 255, green: 255, blue: 255 }
}

// ---------------------------------------------------------------------------
// Modes
// ---------------------------------------------------------------------------

/// The name of a mode in configuration files.
pub open spec fn mode_name(m: Mode) -> Seq<char> {
    match m {
        Mode::Off => "off"@,
        Mode::Text => "text"@,
        Mode::Graphical => "graphical"@,
    }
}

/// The mode with a given name.
pub open spec fn mode_named(s: Seq<char>) -> Option<Mode> {
    if s == "off"@ {
        Some(Mode::Off)
    } else if s == "text"@ {
        Some(Mode::Text)
    } else if s == "graphical"@ {
        Some(Mode::Graphical)
    } else {
        None
    }
}

/// The mode after `m` in the configuration menu's cycle.
pub open spec fn mode_after(m: Mode) -> Mode {
    match m {
        Mode::Off => Mode::Text,
        Mode::Text => Mode::Graphical,
        Mode::Graphical => Mode::Off,
    }
}

/// The mode before `m` in the configuration menu's cycle.
pub open spec fn mode_before(m: Mode) -> Mode {
    match m {
        Mode::Off => Mode::Graphical,
        Mode::Text => Mode::Off,
        Mode::Graphical => Mode::Text,
    }
}

impl Mode {
    pub fn parse(value: &str) -> (r: Option<Mode>)
        ensures
            r == mode_named(value@),
    {
        if text_is(value, "off") {
            Some(Mode::Off)
        } else if text_is(value, "text") {
            Some(Mode::Text)
        } else if text_is(value, "graphical") {
            Some(Mode::Graphical)
        } else {
            None
        }
    }

    pub fn as_str(self) -> (r: &'static str)
        ensures
            r@ == mode_name(self),
    {
        match self {
            Mode::Off => "off",
            Mode::Text => "text",
            Mode::Graphical => "graphical",
        }
    }

    pub fn next(self) -> (r: Mode)
        ensures
            r == mode_after(self),
    {
        match self {
            Mode::Off => Mode::Text,
            Mode::Text => Mode::Graphical,
            Mode::Graphical => Mode::Off,
        }
    }

    pub fn previous(self) -> (r: Mode)
        ensures
            r == mode_before(self),
    {
        match self {
            Mode::Off => Mode::Graphical,
            Mode::Text => Mode::Off,
            Mode::Graphical => Mode::Text,
        }
    }
}

impl Default for Mode {
    /// Graphical progress unless configured otherwise.
    fn default() -> (r: Mode)
        ensures
            r == Mode::Graphical,
    {
        Mode::Graphical
    }
}

/// A mode's name parses back to the mode.
pub proof fn lemma_mode_name_round_trip(m: Mode)
    ensures
        mode_named(mode_name(m)) == Some(m),
{
    reveal_strlit("off");
    reveal_strlit("text");
    reveal_strlit("graphical");
    assert("off"@.len() != "text"@.len());
    assert("off"@.len() != "graphical"@.len());
    assert("text"@.len() != "graphical"@.len());
}

/// `next` and `previous` undo each other, and three steps come back.
pub proof fn lemma_mode_cycle(m: Mode)
    ensures
        mode_before(mode_after(m)) == m,
        mode_after(mode_before(m)) == m,
        mode_after(mode_after(mode_after(m))) == m,
{
}

// ---------------------------------------------------------------------------
// The ring of dots
// ---------------------------------------------------------------------------

/// Offset of dot `k` from the centre of the buffer.
pub open spec fn dot_offset(k: int) -> (int, int) {
    if k == 0 {
        (0, -16)
    } else if k == 1 {
        (8, -14)
    } else if k == 2 {
        (14, -8)
    } else if k == 3 {
        (16, 0)
    } else if k == 4 {
        (14, 8)
    } else if k == 5 {
        (8, 14)
    } else if k == 6 {
        (0, 16)
    } else if k == 7 {
        (-8, 14)
    } else if k == 8 {
        (-14, 8)
    } else if k == 9 {
        (-16, 0)
    } else if k == 10 {
        (-14, -8)
    } else {
        (-8, -14)
    }
}

/// Whether pixel `(x, y)` lies in the disc of radius 3 around `(cx, cy)`.
pub open spec fn in_disc(cx: int, cy: int, x: int, y: int) -> bool {
    &&& -3 <= x - cx <= 3
    &&& -3 <= y - cy <= 3
    &&& (x - cx) * (x - cx) + (y - cy) * (y - cy) <= 9
}

/// Whether dot `k` covers pixel `(x, y)`.
pub open spec fn covers(k: int, x: int, y: int) -> bool {
    in_disc(24 + dot_offset(k).0, 24 + dot_offset(k).1, x, y)
}

/// The last of dots `0..n` that covers `(x, y)`, or -1.
pub open spec fn last_cover(x: int, y: int, n: int) -> int
    decreases n,
{
    if n <= 0 {
        -1
    } else if covers(n - 1, x, y) {
        n - 1
    } else {
        last_cover(x, y, n - 1)
    }
}

/// The colour of pixel `(x, y)` once dots `0..n` were drawn over the
/// background, with dot `highlighted` in the active colour.
pub open spec fn color_after(highlighted: int, n: int, x: int, y: int) -> Pixel {
    let k = last_cover(x, y, n);
    if k < 0 {
        background()
    } else if k == highlighted {
        active()
    } else {
        inactive()
    }
}

/// The frame that highlights dot `highlighted`, pixel by pixel in row-major
/// order.
pub open spec fn frame(highlighted: int) -> Seq<Pixel> {
    Seq::new(
        (SIZE * SIZE) as nat,
        |p: int| color_after(highlighted, DOT_COUNT as int, p % 48, p / 48),
    )
}

/// The character shown by text frame `i`.
pub open spec fn text_frame_char(i: int) -> char {
    if i == 0 {
        '|'
    } else if i == 1 {
        '/'
    } else if i == 2 {
        '-'
    } else {
        '\\'
    }
}

/// Where a 48x48 spinner is centred on a screen, if the screen is big enough.
pub open spec fn centred(width: usize, height: usize) -> Option<(usize, usize)> {
    if width < SIZE || height < SIZE {
        None
    } else {
        Some((((width - SIZE) / 2) as usize, ((height - SIZE) / 2) as usize))
    }
}

/// What the caller does to erase the spinner.
#[derive(Clone, Copy, Debug, PartialEq, Eq, Structural)]
pub enum Erase {
    /// Nothing is on screen.
    Nothing,
    /// Overwrite the text line with blanks.
    TextLine,
    /// Copy the (now blank) buffer to this position.
    Blit { x: usize, y: usize },
}

/// Copying the buffer to `pos`.
pub open spec fn blit_at(pos: (usize, usize)) -> Erase {
    Erase::Blit { x: pos.0, y: pos.1 }
}

/// The spinner's state.
pub struct Spinner {
    mode: Mode,
    index: usize,
    buffer: Vec<Pixel>,
    last_position: Option<(usize, usize)>,
}

impl Spinner {
    pub closed spec fn spec_mode(&self) -> Mode {
        self.mode
    }

    /// The frame counter: the highlighted dot, or the text frame.
    pub closed spec fn spec_index(&self) -> int {
        self.index as int
    }

    pub closed spec fn pixels(&self) -> Seq<Pixel> {
        self.buffer@
    }

    /// Where the last graphical frame was shown.
    pub closed spec fn spec_last_position(&self) -> Option<(usize, usize)> {
        self.last_position
    }

    /// The counter stays within the cycle of the current mode, and the
    /// buffer holds exactly one 48x48 frame.
    pub closed spec fn wf(&self) -> bool {
        &&& self.buffer@.len() == SIZE * SIZE
        &&& self.index < DOT_COUNT
        &&& self.mode == Mode::Text ==> self.index < TEXT_FRAMES
    }

    pub fn new(mode: Mode) -> (s: Spinner)
        ensures
            s.wf(),
            s.spec_mode() == mode,
            s.spec_index() == 0,
            s.spec_last_position() is None,
            s.pixels() == Seq::new((SIZE * SIZE) as nat, |p: int| background()),
    {
        let mut buffer: Vec<Pixel> = Vec::new();
        while buffer.len() < SIZE * SIZE
            invariant
                buffer@.len() <= SIZE * SIZE,
                forall|p: int| 0 <= p < buffer@.len() ==> buffer@[p] == background(),
            decreases SIZE * SIZE - buffer@.len(),
        {
            buffer.push(background_pixel());
        }
        let s = Spinner { mode, index: 0, buffer, last_position: None };
        assert(s.pixels() =~= Seq::new((SIZE * SIZE) as nat, |p: int| background()));
        s
    }

    pub fn mode(&self) -> (m: Mode)
        ensures
            m == self.spec_mode(),
    {
        self.mode
    }

    /// The pixels of the current frame, row by row.
    pub fn buffer(&self) -> (b: &Vec<Pixel>)
        ensures
            b@ == self.pixels(),
    {
        &self.buffer
    }

    /// Switches the output mode and restarts the animation.
    pub fn set_mode(&mut self, mode: Mode)
        requires
            old(self).wf(),
        ensures
            final(self).wf(),
            final(self).spec_mode() == mode,
            final(self).spec_index() == 0,
            final(self).spec_last_position() is None,
            final(self).pixels() == old(self).pixels(),
    {
        self.mode = mode;
        self.index = 0;
        self.last_position = None;
    }

    /// One text-mode tick: the character to show, and the next frame.
    pub fn text_tick(&mut self) -> (c: char)
        requires
            old(self).wf(),
            old(self).spec_mode() == Mode::Text,
        ensures
            final(self).wf(),
            c == text_frame_char(old(self).spec_index()),
            final(self).spec_index() == (old(self).spec_index() + 1) % (TEXT_FRAMES as int),
            final(self).spec_mode() == old(self).spec_mode(),
            final(self).spec_last_position() == old(self).spec_last_position(),
            final(self).pixels() == old(self).pixels(),
    {
        let c = if self.index == 0 {
            '|'
        } else if self.index == 1 {
            '/'
        } else if self.index == 2 {
            '-'
        } else {
            '\\'
        };
        self.index = (self.index + 1) % TEXT_FRAMES;
        c
    }

    /// Where a graphical frame goes on a `width` x `height` screen; `None`
    /// when the screen is smaller than the spinner.
    pub fn position_on(width: usize, height: usize) -> (r: Option<(usize, usize)>)
        ensures
            r == centred(width, height),
    {
        if width < SIZE || height < SIZE {
            return None;
        }
        Some(((width - SIZE) / 2, (height - SIZE) / 2))
    }

    /// Renders the current frame into the buffer.
    pub fn render_frame(&mut self)
        requires
            old(self).wf(),
        ensures
            final(self).wf(),
            final(self).pixels() == frame(old(self).spec_index()),
            final(self).spec_mode() == old(self).spec_mode(),
            final(self).spec_index() == old(self).spec_index(),
            final(self).spec_last_position() == old(self).spec_last_position(),
    {
        let mut p: usize = 0;
        while p < self.buffer.len()
            invariant
                self.wf(),
                self.mode == old(self).mode,
                self.index == old(self).index,
                self.last_position == old(self).last_position,
                p <= self.buffer@.len(),
                forall|q: int| 0 <= q < p ==> self.buffer@[q] == background(),
            decreases self.buffer@.len() - p,
        {
            self.buffer.set(p, background_pixel());
            p += 1;
        }
        let mut k: usize = 0;
        while k < DOT_COUNT
            invariant
                self.wf(),
                self.mode == old(self).mode,
                self.index == old(self).index,
                self.last_position == old(self).last_position,
                k <= DOT_COUNT,
                forall|q: int|
                    0 <= q < SIZE * SIZE ==> self.buffer@[q] == #[trigger] color_after(
                        self.index as int,
                        k as int,
                        q % 48,
                        q / 48,
                    ),
            decreases DOT_COUNT - k,
        {
            let (ox, oy) = dot(k);
            let color = if k == self.index {
                active_pixel()
            } else {
                inactive_pixel()
            };
            let ghost before = self.buffer@;
            self.draw_dot(24 + ox, 24 + oy, color);
            proof {
                assert forall|q: int| 0 <= q < SIZE * SIZE implies self.buffer@[q]
                    == #[trigger] color_after(self.index as int, k + 1, q % 48, q / 48) by {
                    assert(before[q] == color_after(self.index as int, k as int, q % 48, q / 48));
                }
            }
            k += 1;
        }
        assert(self.buffer@ =~= frame(self.index as int));
    }

    /// Paints the disc of radius 3 around `(center_x, center_y)`.
    fn draw_dot(&mut self, center_x: i32, center_y: i32, color: Pixel)
        requires
            old(self).wf(),
            3 <= center_x <= 44,
            3 <= center_y <= 44,
        ensures
            final(self).wf(),
            final(self).mode == old(self).mode,
            final(self).index == old(self).index,
            final(self).last_position == old(self).last_position,
            forall|q: int|
                0 <= q < SIZE * SIZE ==> #[trigger] final(self).buffer@[q] == if in_disc(
                    center_x as int,
                    center_y as int,
                    q % 48,
                    q / 48,
                ) {
                    color
                } else {
                    old(self).buffer@[q]
                },
    {
        let ghost start = self.buffer@;
        let mut dy: i32 = -DOT_RADIUS;
        while dy <= DOT_RADIUS
            invariant
                self.wf(),
                self.mode == old(self).mode,
                self.index == old(self).index,
                self.last_position == old(self).last_position,
                start == old(self).buffer@,
                3 <= center_x <= 44,
                3 <= center_y <= 44,
                -3 <= dy <= 4,
                forall|q: int|
                    0 <= q < SIZE * SIZE ==> #[trigger] self.buffer@[q] == if in_disc(
                        center_x as int,
                        center_y as int,
                        q % 48,
                        q / 48,
                    ) && q / 48 - center_y < dy {
                        color
                    } else {
                        start[q]
                    },
            decreases 4 - dy,
        {
            let mut dx: i32 = -DOT_RADIUS;
            while dx <= DOT_RADIUS
                invariant
                    self.wf(),
                    self.mode == old(self).mode,
                    self.index == old(self).index,
                    self.last_position == old(self).last_position,
                    start == old(self).buffer@,
                    3 <= center_x <= 44,
                    3 <= center_y <= 44,
                    -3 <= dy <= 3,
                    -3 <= dx <= 4,
                    forall|q: int|
                        0 <= q < SIZE * SIZE ==> #[trigger] self.buffer@[q] == if in_disc(
                            center_x as int,
                            center_y as int,
                            q % 48,
                            q / 48,
                        ) && (q / 48 - center_y < dy || (q / 48 - center_y == dy && q % 48
                            - center_x < dx)) {
                            color
                        } else {
                            start[q]
                        },
                decreases 4 - dx,
            {
                assert(0 <= dx * dx <= 9 && 0 <= dy * dy <= 9) by (nonlinear_arith)
                    requires
                        -3 <= dx <= 3,
                        -3 <= dy <= 3,
                ;
                if dx * dx + dy * dy <= DOT_RADIUS * DOT_RADIUS {
                    let x = (center_x + dx) as usize;
                    let y = (center_y + dy) as usize;
                    let target = y * SIZE + x;
                    let ghost before = self.buffer@;
                    proof {
                        lemma_row_major(x as int, y as int);
                    }
                    self.buffer.set(target, color);
                    proof {
                        assert forall|q: int| 0 <= q < SIZE * SIZE implies #[trigger] self.buffer@[q]
                            == if in_disc(center_x as int, center_y as int, q % 48, q / 48) && (q
                            / 48 - center_y < dy || (q / 48 - center_y == dy && q % 48 - center_x
                            < dx + 1)) {
                            color
                        } else {
                            start[q]
                        } by {
                            if q % 48 == x && q / 48 == y {
                                lemma_row_major_unique(q, x as int, y as int);
                            }
                        }
                    }
                } else {
                    proof {
                        assert forall|q: int| 0 <= q < SIZE * SIZE implies #[trigger] self.buffer@[q]
                            == if in_disc(center_x as int, center_y as int, q % 48, q / 48) && (q
                            / 48 - center_y < dy || (q / 48 - center_y == dy && q % 48 - center_x
                            < dx + 1)) {
                            color
                        } else {
                            start[q]
                        } by {
                            if q / 48 - center_y == dy && q % 48 - center_x == dx {
                                assert(!in_disc(center_x as int, center_y as int, q % 48, q / 48));
                            }
                        }
                    }
                }
                dx += 1;
            }
            dy += 1;
        }
    }

    /// Records that the rendered frame reached the screen at `position`, and
    /// moves on to the next dot.
    pub fn frame_shown(&mut self, position: (usize, usize))
        requires
            old(self).wf(),
            old(self).spec_mode() == Mode::Graphical,
        ensures
            final(self).wf(),
            final(self).spec_last_position() == Some(position),
            final(self).spec_index() == (old(self).spec_index() + 1) % (DOT_COUNT as int),
            final(self).spec_mode() == old(self).spec_mode(),
            final(self).pixels() == old(self).pixels(),
    {
        self.last_position = Some(position);
        self.index = (self.index + 1) % DOT_COUNT;
    }

    /// Erases the spinner without reading the framebuffer: blanks the text
    /// line, or blanks the buffer and says where to copy it.
    pub fn clear(&mut self) -> (r: Erase)
        requires
            old(self).wf(),
        ensures
            final(self).wf(),
            final(self).spec_mode() == old(self).spec_mode(),
            final(self).spec_index() == old(self).spec_index(),
            final(self).spec_last_position() == old(self).spec_last_position(),
            old(self).spec_mode() == Mode::Text ==> r == Erase::TextLine && final(self).pixels()
                == old(self).pixels(),
            old(self).spec_mode() != Mode::Text && old(self).spec_last_position() is None ==> r
                == Erase::Nothing && final(self).pixels() == old(self).pixels(),
            old(self).spec_mode() != Mode::Text && old(self).spec_last_position() is Some ==> r == blit_at(
                old(self).spec_last_position()->0,
            ) && final(self).pixels() == Seq::new((SIZE * SIZE) as nat, |p: int| background()),
    {
        if self.mode == Mode::Text {
            return Erase::TextLine;
        }
        let position = match self.last_position {
            None => {
                return Erase::Nothing;
            },
            Some(p) => p,
        };
        let mut p: usize = 0;
        while p < self.buffer.len()
            invariant
                self.wf(),
                self.mode == old(self).mode,
                self.index == old(self).index,
                self.last_position == old(self).last_position,
                p <= self.buffer@.len(),
                forall|q: int| 0 <= q < p ==> self.buffer@[q] == background(),
            decreases self.buffer@.len() - p,
        {
            self.buffer.set(p, background_pixel());
            p += 1;
        }
        assert(self.buffer@ =~= Seq::new((SIZE * SIZE) as nat, |p: int| background()));
        Erase::Blit { x: position.0, y: position.1 }
    }
}

/// The offset of dot `k` from the centre.
fn dot(k: usize) -> (r: (i32, i32))
    requires
        k < DOT_COUNT,
    ensures
        r.0 == dot_offset(k as int).0,
        r.1 == dot_offset(k as int).1,
        -16 <= r.0 <= 16,
        -16 <= r.1 <= 16,
{
    if k == 0 {
        (0, -16)
    } else if k == 1 {
        (8, -14)
    } else if k == 2 {
        (14, -8)
    } else if k == 3 {
        (16, 0)
    } else if k == 4 {
        (14, 8)
    } else if k == 5 {
        (8, 14)
    } else if k == 6 {
        (0, 16)
    } else if k == 7 {
        (-8, 14)
    } else if k == 8 {
        (-14, 8)
    } else if k == 9 {
        (-16, 0)
    } else if k == 10 {
        (-14, -8)
    } else {
        (-8, -14)
    }
}

/// Row-major indexing into a 48-wide buffer.
proof fn lemma_row_major(x: int, y: int)
    requires
        0 <= x < 48,
        0 <= y < 48,
    ensures
        0 <= y * 48 + x < 48 * 48,
        (y * 48 + x) % 48 == x,
        (y * 48 + x) / 48 == y,
{
    assert(0 <= y * 48 + x < 48 * 48) by (nonlinear_arith)
        requires
            0 <= x < 48,
            0 <= y < 48,
    ;
    vstd::arithmetic::div_mod::lemma_fundamental_div_mod_converse(y * 48 + x, 48, y, x);
}

/// The index of `(x, y)` is the only one with that column and row.
proof fn lemma_row_major_unique(q: int, x: int, y: int)
    requires
        0 <= q,
        0 <= x < 48,
        0 <= y < 48,
        q % 48 == x,
        q / 48 == y,
    ensures
        q == y * 48 + x,
{
    vstd::arithmetic::div_mod::lemma_fundamental_div_mod(q, 48);
}

} // verus!
