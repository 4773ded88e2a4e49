//! The memory-mapped I/O ports of the emulated machines.
use vstd::prelude::*;
use crate::text::{push_str, decimal_string};
use crate::color::{Color, color_at};
use crate::screen::{Screen, cell_on_screen, pixel_index, painted, SIZE_PX, PIXELS};
use crate::word::UInt;
use std::collections::VecDeque;

verus! {

/// The different ports.
#[derive(Debug, Clone, Copy, PartialEq, Eq, Structural)]
pub enum Port {
    /// Print character to screen, read char from stdin
    Char,
    /// Print unsigned integer to screen, read integer from stdin
    Ticker,
    /// Read a random number
    Random,
    /// Write the x position for graphics
    XPos,
    /// Writes a white pixel to (x,y) in the frame buffer.
    YPos,
    /// Sets the colour for future writes.
    /// Reads the colour of the pixel on the screen at the current position.
    Color,
    /// Write the frame buffer to the display. Clears the frame buffer.
    Flip,
    /// Write the frame buffer to the display.
    Draw,
    /// Read the buttons held down.
    Buttons,
    /// Read the buttons pressed since the last read.
    ButtonsP,
}

/// The address of a port.
pub open spec fn port_address(port: Port) -> usize {
    match port {
        Port::Char => 0,
        Port::Ticker => 1,
        Port::Random => 2,
        Port::XPos => 8,
        Port::YPos => 9,
        Port::Color => 10,
        Port::Flip => 11,
        Port::Draw => 12,
        Port::Buttons => 13,
        Port::ButtonsP => 14,
    }
}

/// The port at an address, if any.
pub open spec fn port_at(addr: int) -> Option<Port> {
    if addr == 0 {
        Some(Port::Char)
    } else if addr == 1 {
        Some(Port::Ticker)
    } else if addr == 2 {
        Some(Port::Random)
    } else if addr == 8 {
        Some(Port::XPos)
    } else if addr == 9 {
        Some(Port::YPos)
    } else if addr == 10 {
        Some(Port::Color)
    } else if addr == 11 {
        Some(Port::Flip)
    } else if addr == 12 {
        Some(Port::Draw)
    } else if addr == 13 {
        Some(Port::Buttons)
    } else if addr == 14 {
        Some(Port::ButtonsP)
    } else {
        None
    }
}

/// The name of a port in the symbol table of the assembler: its variant name in lower case.
pub open spec fn port_name(port: Port) -> Seq<char> {
    match port {
        Port::Char => "char"@,
        Port::Ticker => "ticker"@,
        Port::Random => "random"@,
        Port::XPos => "xpos"@,
        Port::YPos => "ypos"@,
        Port::Color => "color"@,
        Port::Flip => "flip"@,
        Port::Draw => "draw"@,
        Port::Buttons => "buttons"@,
        Port::ButtonsP => "buttonsp"@,
    }
}

/// All ports, in declaration order.
pub open spec fn all_ports() -> Seq<Port> {
    seq![
        Port::Char,
        Port::Ticker,
        Port::Random,
        Port::XPos,
        Port::YPos,
        Port::Color,
        Port::Flip,
        Port::Draw,
        Port::Buttons,
        Port::ButtonsP,
    ]
}

impl From<Port> for usize {
    fn from(port: Port) -> (r: usize) {
        match port {
            Port::Char => 0,
            Port::Ticker => 1,
            Port::Random => 2,
            Port::XPos => 8,
            Port::YPos => 9,
            Port::Color => 10,
            Port::Flip => 11,
            Port::Draw => 12,
            Port::Buttons => 13,
            Port::ButtonsP => 14,
        }
    }
}

impl vstd::std_specs::convert::FromSpecImpl<Port> for usize {
    open spec fn obeys_from_spec() -> bool {
        true
    }

    open spec fn from_spec(v: Port) -> usize {
        port_address(v)
    }
}

impl Port {
    /// The port at an address.
    ///
    /// # Errors
    ///
    /// `Invalid port address: <value>` when no port lives at `value`.
    pub fn try_from(value: usize) -> (r: Result<Port, String>)
        ensures
            r is Ok <==> port_at(value as int) is Some,
            r matches Ok(p) ==> port_at(value as int) == Some(p),
            r matches Err(msg) ==> msg@ == "Invalid port address: "@ + crate::text::decimal(value as nat),
    {
        match value {
            0 => Ok(Port::Char),
            1 => Ok(Port::Ticker),
            2 => Ok(Port::Random),
            8 => Ok(Port::XPos),
            9 => Ok(Port::YPos),
            10 => Ok(Port::Color),
            11 => Ok(Port::Flip),
            12 => Ok(Port::Draw),
            13 => Ok(Port::Buttons),
            14 => Ok(Port::ButtonsP),
            _ => {
                let mut msg = "Invalid port address: ".to_owned();
                push_str(&mut msg, &decimal_string(value as u64));
                Err(msg)
            },
        }
    }

    /// The port at an address, if any.
    pub fn at(addr: usize) -> (r: Option<Port>)
        ensures
            r == port_at(addr as int),
    {
        match addr {
            0 => Some(Port::Char),
            1 => Some(Port::Ticker),
            2 => Some(Port::Random),
            8 => Some(Port::XPos),
            9 => Some(Port::YPos),
            10 => Some(Port::Color),
            11 => Some(Port::Flip),
            12 => Some(Port::Draw),
            13 => Some(Port::Buttons),
            14 => Some(Port::ButtonsP),
            _ => None,
        }
    }

    /// The address of the port.
    pub fn address(self) -> (a: usize)
        ensures
            a == port_address(self),
    {
        usize::from(self)
    }

    /// The name of the port in the assembler's symbol table.
    pub fn name(self) -> (s: &'static str)
        ensures
            s@ == port_name(self),
    {
        proof {
            reveal_strlit("char");
            reveal_strlit("ticker");
            reveal_strlit("random");
            reveal_strlit("xpos");
            reveal_strlit("ypos");
            reveal_strlit("color");
            reveal_strlit("flip");
            reveal_strlit("draw");
            reveal_strlit("buttons");
            reveal_strlit("buttonsp");
        }
        match self {
            Port::Char => "char",
            Port::Ticker => "ticker",
            Port::Random => "random",
            Port::XPos => "xpos",
            Port::YPos => "ypos",
            Port::Color => "color",
            Port::Flip => "flip",
            Port::Draw => "draw",
            Port::Buttons => "buttons",
            Port::ButtonsP => "buttonsp",
        }
    }

    /// Every port, in declaration order.
    pub fn iter() -> (ports: Vec<Port>)
        ensures
            ports@ == all_ports(),
    {
        let v = vec![
            Port::Char,
            Port::Ticker,
            Port::Random,
            Port::XPos,
            Port::YPos,
            Port::Color,
            Port::Flip,
            Port::Draw,
            Port::Buttons,
            Port::ButtonsP,
        ];
        assert(v@ == all_ports());
        v
    }
}

/// What a port hands to the host, in the order the program wrote it.
#[derive(Debug, Clone, Copy, PartialEq, Eq, Structural)]
pub enum PortOutput {
    /// Print the character with this code.
    Char(u8),
    /// Print this unsigned integer on a line of its own.
    Int(u64),
    /// Wait for the next frame and show what the screen holds.
    Show,
}

/// Draws a random 64-bit number.
///
/// Wraps `rand::random::<u64>()`. The number depends on chance, so nothing is
/// claimed of it.
#[verifier::external_body]
fn random_u64() -> u64 {
    rand::random::<u64>()
}

/// The port's state.
/// T is the word size of the CPU.
///
/// Input that only the host can get (a line typed by the user, an integer
/// typed by the user, the state of the buttons) is handed in before the read
/// that needs it; what the program prints or draws is queued for the host.
pub struct PortState<T> {
    /// The buffer of chars read from stdin.
    chars: VecDeque<u8>,
    /// Graphics
    x_coord: T,
    y_coord: T,
    color: Color,
    screen: Screen,
    /// The value for the next read of `Ticker`, `Buttons` or `ButtonsP`.
    supplied: Option<T>,
    /// What the program printed or drew and the host has not taken yet.
    output: Vec<PortOutput>,
}

/// Whether a word, as a coordinate, fits in a byte.
pub open spec fn byte_sized<T: UInt>(v: T) -> bool {
    v.value() < 256
}

impl<T: UInt> PortState<T> {
    /// The characters typed by the user and not read yet, first first.
    pub closed spec fn pending_chars(&self) -> Seq<u8> {
        self.chars@
    }

    /// The x coordinate for graphics.
    pub closed spec fn x(&self) -> T {
        self.x_coord
    }

    /// The y coordinate for graphics.
    pub closed spec fn y(&self) -> T {
        self.y_coord
    }

    /// The current colour.
    pub closed spec fn current_color(&self) -> Color {
        self.color
    }

    /// The screen.
    pub closed spec fn screen_state(&self) -> Screen {
        self.screen
    }

    /// The value handed in for the next read that needs the host.
    pub closed spec fn supplied_value(&self) -> Option<T> {
        self.supplied
    }

    /// What the program printed or drew and the host has not taken yet.
    pub closed spec fn pending_output(&self) -> Seq<PortOutput> {
        self.output@
    }

    /// The screen covers its pixels.
    pub open spec fn wf(&self) -> bool {
        self.screen_state().wf()
    }

    /// Whether reading `port` needs a value from the host first.
    pub open spec fn needs_host(&self, port: Port) -> bool {
        match port {
            Port::Ticker | Port::Buttons | Port::ButtonsP => self.supplied_value() is None,
            _ => false,
        }
    }

    /// Whether reading `port` neither waits for the host nor goes off the screen.
    pub open spec fn can_read(&self, port: Port) -> bool {
        &&& !self.needs_host(port)
        &&& port == Port::Color ==> byte_sized(self.x()) && byte_sized(self.y()) && pixel_index(
            self.x().value() * SIZE_PX,
            self.y().value() * SIZE_PX,
        ) < PIXELS
    }

    /// Whether writing `value` to `port` stays within what the port accepts.
    pub open spec fn can_write(&self, port: Port, value: T) -> bool {
        match port {
            Port::Char => value.value() < 256,
            Port::Color => value.value() < 256 && byte_sized(self.x()) && byte_sized(self.y()) && cell_on_screen(
                self.x().value() as u8,
                self.y().value() as u8,
            ),
            Port::YPos => byte_sized(self.x()) && value.value() < 256 && cell_on_screen(
                self.x().value() as u8,
                value.value() as u8,
            ),
            _ => true,
        }
    }

    /// A fresh state: nothing typed, coordinates 0, black screen.
    pub fn new() -> (p: Self)
        ensures
            p.wf(),
            p.pending_chars().len() == 0,
            p.x().value() == 0,
            p.y().value() == 0,
            p.current_color() == Color::Black,
            p.supplied_value() is None,
            p.pending_output().len() == 0,
            p.screen_state().frame() == Seq::new(PIXELS as nat, |k: int| Color::Black),
            p.screen_state().shown() == Seq::new(PIXELS as nat, |k: int| Color::Black),
    {
        PortState {
            chars: VecDeque::new(),
            x_coord: T::from_u8(0),
            y_coord: T::from_u8(0),
            color: Color::Black,
            screen: Screen::new(),
            supplied: None,
            output: Vec::new(),
        }
    }

    /// Whether reading `port` asks the host for input: a line when no typed
    /// character is left, an integer for the ticker, the button state.
    pub open spec fn wants_host(&self, port: Port) -> bool {
        ||| port == Port::Char && self.pending_chars().len() == 0
        ||| port == Port::Ticker
        ||| port == Port::Buttons
        ||| port == Port::ButtonsP
    }

    /// Whether reading `port` asks the host for input.
    pub fn asks_host(&self, port: Port) -> (b: bool)
        ensures
            b == self.wants_host(port),
    {
        match port {
            Port::Char => self.chars.len() == 0,
            Port::Ticker | Port::Buttons | Port::ButtonsP => true,
            _ => false,
        }
    }

    /// Whether reading `port` is possible now.
    pub fn readable(&self, port: Port) -> (b: bool)
        requires
            self.wf(),
        ensures
            b == self.can_read(port),
    {
        match port {
            Port::Ticker | Port::Buttons | Port::ButtonsP => self.supplied.is_some(),
            Port::Color => {
                let x = self.x_coord.to_u64();
                let y = self.y_coord.to_u64();
                x < 256 && y < 256 && (x as usize * SIZE_PX) + (y as usize * SIZE_PX) * crate::screen::WIDTH
                    < PIXELS
            },
            _ => true,
        }
    }

    /// Whether writing `value` to `port` is possible now.
    pub fn writable(&self, port: Port, value: T) -> (b: bool)
        requires
            self.wf(),
        ensures
            b == self.can_write(port, value),
    {
        match port {
            Port::Char => value.to_u64() < 256,
            Port::Color => {
                let x = self.x_coord.to_u64();
                let y = self.y_coord.to_u64();
                value.to_u64() < 256 && x < 256 && y < 256 && (x as usize * SIZE_PX + SIZE_PX - 1) + (y as usize
                    * SIZE_PX + SIZE_PX - 1) * crate::screen::WIDTH < PIXELS
            },
            Port::YPos => {
                let x = self.x_coord.to_u64();
                let y = value.to_u64();
                x < 256 && y < 256 && (x as usize * SIZE_PX + SIZE_PX - 1) + (y as usize * SIZE_PX + SIZE_PX
                    - 1) * crate::screen::WIDTH < PIXELS
            },
            _ => true,
        }
    }

    /// The screen, for the host to show.
    pub fn screen(&self) -> (s: &Screen)
        ensures
            *s == self.screen_state(),
    {
        &self.screen
    }

    /// Appends a line typed by the user to the characters to read.
    pub fn feed_line(&mut self, line: &[u8])
        ensures
            final(self).pending_chars() == old(self).pending_chars() + line@,
            final(self).x() == old(self).x(),
            final(self).y() == old(self).y(),
            final(self).current_color() == old(self).current_color(),
            final(self).screen_state() == old(self).screen_state(),
            final(self).supplied_value() == old(self).supplied_value(),
            final(self).pending_output() == old(self).pending_output(),
    {
        let mut i: usize = 0;
        while i < line.len()
            invariant
                i <= line@.len(),
                self.chars@ == old(self).chars@ + line@.subrange(0, i as int),
                self.x_coord == old(self).x_coord,
                self.y_coord == old(self).y_coord,
                self.color == old(self).color,
                self.screen == old(self).screen,
                self.supplied == old(self).supplied,
                self.output == old(self).output,
            decreases line@.len() - i,
        {
            self.chars.push_back(line[i]);
            i = i + 1;
            assert(line@.subrange(0, i as int) == line@.subrange(0, i - 1).push(line@[i - 1]));
        }
        assert(line@.subrange(0, line@.len() as int) == line@);
    }

    /// Hands in the value for the next read of `Ticker`, `Buttons` or `ButtonsP`.
    pub fn supply(&mut self, value: T)
        ensures
            final(self).supplied_value() == Some(value),
            final(self).pending_chars() == old(self).pending_chars(),
            final(self).x() == old(self).x(),
            final(self).y() == old(self).y(),
            final(self).current_color() == old(self).current_color(),
            final(self).screen_state() == old(self).screen_state(),
            final(self).pending_output() == old(self).pending_output(),
    {
        self.supplied = Some(value);
    }

    /// Takes what the program printed or drew since the last call.
    pub fn take_output(&mut self) -> (out: Vec<PortOutput>)
        ensures
            out@ == old(self).pending_output(),
            final(self).pending_output().len() == 0,
            final(self).pending_chars() == old(self).pending_chars(),
            final(self).x() == old(self).x(),
            final(self).y() == old(self).y(),
            final(self).current_color() == old(self).current_color(),
            final(self).screen_state() == old(self).screen_state(),
            final(self).supplied_value() == old(self).supplied_value(),
    {
        let mut out: Vec<PortOutput> = Vec::new();
        std::mem::swap(&mut out, &mut self.output);
        out
    }

    /// Reads a word from a port.
    ///
    /// `Char` gives the next character typed (0 when none is left); `Ticker`,
    /// `Buttons` and `ButtonsP` give the value handed in by the host; `Random`
    /// a random word; `XPos` and `YPos` the coordinates; `Color` the colour of
    /// the screen at the coordinates; `Flip` and `Draw` give 0.
    pub fn read_port(&mut self, port: Port) -> (v: T)
        requires
            old(self).wf(),
            old(self).can_read(port),
        ensures
            read_effect(*old(self), port, *final(self), v),
    {
        match port {
            Port::Char => {
                // if there are chars in the buffer, read from it
                match self.chars.pop_front() {
                    Some(c) => T::from_u8(c),
                    None => T::from_u8(0),
                }
            },
            Port::Ticker | Port::Buttons | Port::ButtonsP => {
                let v = self.supplied.unwrap();
                self.supplied = None;
                v
            },
            Port::Random => T::wrap_u64(random_u64()),
            Port::XPos => self.x_coord,
            Port::YPos => self.y_coord,
            Port::Color => {
                let x = self.x_coord.to_u64() as u8;
                let y = self.y_coord.to_u64() as u8;
                T::from_u8(u8::from(self.screen.read_pixel(x, y)))
            },
            Port::Flip | Port::Draw => T::from_u8(0),
        }
    }

    /// Writes a word to a port.
    ///
    /// `Char` prints the character, `Ticker` the integer; `XPos` sets the x
    /// coordinate; `YPos` sets the y coordinate and paints the cell at the
    /// coordinates white in the frame buffer; `Color` sets the colour and
    /// paints the cell at the coordinates with it in the frame buffer; `Draw`
    /// copies the frame buffer to the screen and shows it, `Flip` does too and
    /// then clears the frame buffer. Writes to the other ports are ignored.
    pub fn write_port(&mut self, port: Port, value: T)
        requires
            old(self).wf(),
            old(self).can_write(port, value),
        ensures
            write_effect(*old(self), port, value, *final(self)),
    {
        match port {
            // print char to screen
            Port::Char => {
                self.output.push(PortOutput::Char(value.to_u64() as u8));
            },
            // print unsigned integer to screen
            Port::Ticker => {
                self.output.push(PortOutput::Int(value.to_u64()));
            },
            Port::XPos => self.x_coord = value,
            Port::YPos => {
                self.y_coord = value;
                let x = self.x_coord.to_u64() as u8;
                let y = value.to_u64() as u8;
                self.screen.plot(x, y, Color::White);
            },
            Port::Color => {
                let c = Color::from(value.to_u64() as u8);
                self.color = c;
                let x = self.x_coord.to_u64() as u8;
                let y = self.y_coord.to_u64() as u8;
                self.screen.plot(x, y, c);
            },
            Port::Flip => {
                self.screen.flip();
                self.output.push(PortOutput::Show);
            },
            Port::Draw => {
                self.screen.draw();
                self.output.push(PortOutput::Show);
            },
            Port::Random | Port::Buttons | Port::ButtonsP => {},
        }
    }
}

/// What reading `port` does: `new` is the state after the read and `v` the word read.
pub open spec fn read_effect<T: UInt>(old: PortState<T>, port: Port, new: PortState<T>, v: T) -> bool {
    &&& new.wf()
    &&& new.x() == old.x()
    &&& new.y() == old.y()
    &&& new.current_color() == old.current_color()
    &&& new.screen_state() == old.screen_state()
    &&& new.pending_output() == old.pending_output()
    &&& port == Port::Char ==> if old.pending_chars().len() > 0 {
        &&& v.value() == old.pending_chars()[0]
        &&& new.pending_chars() == old.pending_chars().drop_first()
    } else {
        &&& v.value() == 0
        &&& new.pending_chars() == old.pending_chars()
    }
    &&& port != Port::Char ==> new.pending_chars() == old.pending_chars()
    &&& (port == Port::Ticker || port == Port::Buttons || port == Port::ButtonsP) ==> {
        &&& Some(v) == old.supplied_value()
        &&& new.supplied_value() is None
    }
    &&& !(port == Port::Ticker || port == Port::Buttons || port == Port::ButtonsP)
        ==> new.supplied_value() == old.supplied_value()
    &&& port == Port::XPos ==> v == old.x()
    &&& port == Port::YPos ==> v == old.y()
    &&& port == Port::Color ==> v.value() == crate::color::color_index(
        old.screen_state().shown()[pixel_index(old.x().value() * SIZE_PX, old.y().value() * SIZE_PX)],
    )
    &&& (port == Port::Flip || port == Port::Draw) ==> v.value() == 0
}

/// What writing `value` to `port` does: `new` is the state after the write.
pub open spec fn write_effect<T: UInt>(old: PortState<T>, port: Port, value: T, new: PortState<T>) -> bool {
    &&& new.wf()
    &&& new.pending_chars() == old.pending_chars()
    &&& new.supplied_value() == old.supplied_value()
    &&& new.x() == (if port == Port::XPos { value } else { old.x() })
    &&& new.y() == (if port == Port::YPos { value } else { old.y() })
    &&& new.current_color() == (if port == Port::Color {
        color_at(value.value() as u8)
    } else {
        old.current_color()
    })
    &&& new.pending_output() == match port {
        Port::Char => old.pending_output().push(PortOutput::Char(value.value() as u8)),
        Port::Ticker => old.pending_output().push(PortOutput::Int(value.value() as u64)),
        Port::Flip | Port::Draw => old.pending_output().push(PortOutput::Show),
        _ => old.pending_output(),
    }
    &&& port == Port::YPos ==> new.screen_state().frame() == painted(
        old.screen_state().frame(),
        old.x().value() as u8,
        value.value() as u8,
        Color::White,
    ) && new.screen_state().shown() == old.screen_state().shown()
    &&& port == Port::Color ==> new.screen_state().frame() == painted(
        old.screen_state().frame(),
        old.x().value() as u8,
        old.y().value() as u8,
        color_at(value.value() as u8),
    ) && new.screen_state().shown() == old.screen_state().shown()
    &&& port == Port::Draw ==> new.screen_state().shown() == old.screen_state().frame()
        && new.screen_state().frame() == old.screen_state().frame()
    &&& port == Port::Flip ==> new.screen_state().shown() == old.screen_state().frame()
        && new.screen_state().frame() == Seq::new(PIXELS as nat, |k: int| Color::Black)
    &&& !(port == Port::YPos || port == Port::Color || port == Port::Draw || port == Port::Flip) ==> new.screen_state()
        == old.screen_state()
}

/// A port's address leads back to the port.
pub proof fn lemma_port_address_roundtrip(port: Port)
    ensures
        port_at(port_address(port) as int) == Some(port),
{
}

/// An address that holds a port is that port's address.
pub proof fn lemma_port_at_roundtrip(addr: int)
    requires
        port_at(addr) is Some,
    ensures
        port_address(port_at(addr)->0) == addr,
{
}

/// One operation on the ports: a read of a port, or a write of a word to it.
pub enum PortOp<T> {
    Read(Port),
    Write(Port, T),
}

/// `new` is a state that `op` can lead to from `old`.
pub open spec fn op_effect<T: UInt>(old: PortState<T>, op: PortOp<T>, new: PortState<T>) -> bool {
    match op {
        PortOp::Read(p) => exists|v: T| #[trigger] read_effect(old, p, new, v),
        PortOp::Write(p, v) => write_effect(old, p, v, new),
    }
}

/// `states` are the states that the operations `ops` pass through, one
/// after the other.
pub open spec fn runs_through<T: UInt>(states: Seq<PortState<T>>, ops: Seq<PortOp<T>>) -> bool {
    &&& states.len() == ops.len() + 1
    &&& forall|i: int| 0 <= i < ops.len() ==> op_effect(states[i], #[trigger] ops[i], states[i + 1])
}

/// The coordinate that `port`, `XPos` or `YPos`, sets.
pub open spec fn coordinate<T: UInt>(s: PortState<T>, port: Port) -> T {
    if port == Port::XPos {
        s.x()
    } else {
        s.y()
    }
}

proof fn lemma_coordinate_kept<T: UInt>(
    states: Seq<PortState<T>>,
    ops: Seq<PortOp<T>>,
    i: int,
    port: Port,
    value: T,
    k: int,
)
    requires
        runs_through(states, ops),
        0 <= i < k <= ops.len(),
        port == Port::XPos || port == Port::YPos,
        ops[i] == PortOp::Write(port, value),
        forall|j: int| i < j < ops.len() ==> !(#[trigger] ops[j] matches PortOp::Write(q, _) && q == port),
    ensures
        coordinate(states[k], port) == value,
    decreases k - i,
{
    if k == i + 1 {
        assert(op_effect(states[i], ops[i], states[i + 1]));
    } else {
        lemma_coordinate_kept(states, ops, i, port, value, k - 1);
        assert(op_effect(states[k - 1], ops[k - 1], states[k]));
        match ops[k - 1] {
            PortOp::Read(p) => {
                let v = choose|v: T| #[trigger] read_effect(states[k - 1], p, states[k], v);
                assert(read_effect(states[k - 1], p, states[k], v));
            },
            PortOp::Write(p, v) => {
                assert(p != port);
            },
        }
    }
}

/// A coordinate is the word last written to its port: reads, and writes to
/// the other ports, leave it, and a read of the port gives it back, while
/// `Flip` and `Draw` read 0.
pub proof fn lemma_coordinate_last_written<T: UInt>(
    states: Seq<PortState<T>>,
    ops: Seq<PortOp<T>>,
    i: int,
    port: Port,
    value: T,
)
    requires
        runs_through(states, ops),
        0 <= i < ops.len(),
        port == Port::XPos || port == Port::YPos,
        ops[i] == PortOp::Write(port, value),
        forall|j: int| i < j < ops.len() ==> !(#[trigger] ops[j] matches PortOp::Write(q, _) && q == port),
    ensures
        coordinate(states[ops.len() as int], port) == value,
        forall|s: PortState<T>, v: T| #[trigger] read_effect(states[ops.len() as int], port, s, v) ==> v == value,
        forall|s: PortState<T>, v: T| #[trigger] read_effect(states[ops.len() as int], Port::Flip, s, v) ==> v.value() == 0,
        forall|s: PortState<T>, v: T| #[trigger] read_effect(states[ops.len() as int], Port::Draw, s, v) ==> v.value() == 0,
{
    lemma_coordinate_kept(states, ops, i, port, value, ops.len() as int);
}

} // verus!
