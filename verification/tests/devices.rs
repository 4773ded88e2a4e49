use assemulator::color::Color;
use assemulator::port::{Port, PortOutput, PortState};
use assemulator::reg::Register;
use assemulator::screen::{Button, Screen, PIXELS};
use assemulator::util::{mask, parse_int};

#[test]
fn mask_keeps_the_low_bits_of_fitting_values() {
    assert_eq!(mask::<u8>(5, 4), Ok(5u8));
    assert_eq!(mask::<u16>(u64::MAX, 7), Ok(0x7fu16));
    assert_eq!(mask::<u16>(u64::MAX - 63, 7), Ok(0x40u16));
    assert_eq!(mask::<u64>(u64::MAX, 64), Ok(u64::MAX));
}

#[test]
fn mask_refuses_values_that_do_not_fit() {
    assert_eq!(
        mask::<u8>(16, 4),
        Err("Value 16 does not fit in 4 bits".to_owned())
    );
    assert_eq!(
        mask::<u16>(u64::MAX - 200, 7),
        Err("Value 18446744073709551415 does not fit in 7 bits".to_owned())
    );
}

#[test]
fn parse_int_reads_all_bases() {
    assert_eq!(parse_int("42"), Ok(42));
    assert_eq!(parse_int("0x2A"), Ok(42));
    assert_eq!(parse_int("0b101010"), Ok(42));
    assert_eq!(parse_int("0o52"), Ok(42));
    assert_eq!(parse_int("+7"), Ok(7));
    assert_eq!(parse_int("-1"), Ok(u64::MAX));
    assert_eq!(parse_int("-0"), Ok(0));
}

#[test]
fn parse_int_refuses_what_is_no_integer() {
    assert_eq!(parse_int("0x"), Err("Invalid integer: 0x".to_owned()));
    assert_eq!(parse_int("12z"), Err("Invalid integer: 12z".to_owned()));
    assert_eq!(
        parse_int("18446744073709551616"),
        Err("Invalid integer: 18446744073709551616".to_owned())
    );
}

#[test]
fn ports_round_trip_through_addresses() {
    for p in Port::iter() {
        assert_eq!(Port::try_from(usize::from(p)), Ok(p));
        assert_eq!(Port::at(p.address()), Some(p));
    }
    assert_eq!(usize::from(Port::XPos), 8);
    assert_eq!(Port::at(3), None);
    assert_eq!(
        Port::try_from(3),
        Err("Invalid port address: 3".to_owned())
    );
    assert_eq!(Port::Random.name(), "random");
}

#[test]
fn colors_round_trip_through_bytes() {
    for n in 0u8..16 {
        assert_eq!(u8::from(Color::from(n)), n);
    }
    assert_eq!(Color::default(), Color::Black);
    assert_eq!(Color::White.to_rgb(), (0xff, 0xf1, 0xe8));
    assert_eq!(Color::Black.to_rgb(), (0, 0, 0));
}

#[test]
fn registers_parse_by_number() {
    assert_eq!(Register::<8>::parse("r7"), Ok(Register::<8>(7)));
    assert_eq!(
        Register::<8>::parse("r8"),
        Err("Invalid register: r8".to_owned())
    );
    assert_eq!(
        Register::<8>::parse("x1"),
        Err("Invalid register: x1".to_owned())
    );
    assert_eq!("r3".parse::<Register<8>>(), Ok(Register::<8>(3)));
}

#[test]
fn buttons_set_one_bit_each() {
    assert_eq!(Screen::buttons(&[]), 0);
    assert_eq!(Screen::buttons(&[Button::Up, Button::X]), 33);
    assert_eq!(Screen::buttons(&[Button::Left, Button::Left, Button::Other]), 4);
    assert_eq!(Screen::buttonsp(&[Button::Down, Button::Right, Button::Z]), 26);
}

#[test]
fn the_screen_is_double_buffered() {
    let mut s = Screen::new();
    s.plot(1, 2, Color::Red);
    assert_eq!(s.read_pixel(1, 2), Color::Black);
    assert!(s.frame_has_content());
    s.draw();
    assert_eq!(s.read_pixel(1, 2), Color::Red);
    s.flip();
    assert!(!s.frame_has_content());
    assert_eq!(s.read_pixel(1, 2), Color::Red);
    assert_eq!(s.shown_pixel(PIXELS - 1), Color::Black);
}

#[test]
fn a_plot_shows_once_flipped() {
    let mut s = Screen::new();
    s.plot(5, 6, Color::Blue);
    s.plot(7, 6, Color::Red);
    assert_eq!(s.read_pixel(5, 6), Color::Black);
    assert_eq!(s.read_pixel(7, 6), Color::Black);
    s.flip();
    assert_eq!(s.read_pixel(5, 6), Color::Blue);
    assert_eq!(s.read_pixel(7, 6), Color::Red);
}

#[test]
fn port_state_queues_output_and_reads_input() {
    let mut p: PortState<u16> = PortState::new();
    assert!(p.asks_host(Port::Char));
    p.feed_line(b"hi");
    assert!(!p.asks_host(Port::Char));
    assert_eq!(p.read_port(Port::Char), u16::from(b'h'));
    assert_eq!(p.read_port(Port::Char), u16::from(b'i'));
    assert!(!p.readable(Port::Ticker));
    p.supply(77);
    assert!(p.readable(Port::Ticker));
    assert_eq!(p.read_port(Port::Ticker), 77);
    p.write_port(Port::Char, u16::from(b'!'));
    p.write_port(Port::Ticker, 12);
    p.write_port(Port::XPos, 3);
    p.write_port(Port::YPos, 4);
    p.write_port(Port::Draw, 0);
    assert_eq!(p.read_port(Port::XPos), 3);
    assert_eq!(p.read_port(Port::Color), u16::from(u8::from(Color::White)));
    assert_eq!(
        p.take_output(),
        vec![PortOutput::Char(b'!'), PortOutput::Int(12), PortOutput::Show]
    );
    assert!(p.take_output().is_empty());
    assert!(p.writable(Port::Char, 255));
    assert!(!p.writable(Port::Char, 256));
}

#[test]
fn a_color_write_paints_the_current_cell() {
    let mut p: PortState<u16> = PortState::new();
    p.write_port(Port::XPos, 3);
    p.write_port(Port::YPos, 4);
    assert!(p.writable(Port::Color, 8));
    p.write_port(Port::Color, 8);
    assert_eq!(p.screen().read_pixel(3, 4), Color::Black);
    p.write_port(Port::Draw, 0);
    assert_eq!(p.screen().read_pixel(3, 4), Color::from(8));
    assert_eq!(p.read_port(Port::Color), 8);
    assert_eq!(p.screen().shown_pixel(0), Color::Black);
    p.write_port(Port::YPos, 63);
    assert!(p.writable(Port::Color, 8));
    p.write_port(Port::XPos, 255);
    assert!(!p.writable(Port::Color, 8));
    p.write_port(Port::XPos, 256);
    assert!(!p.writable(Port::Color, 8));
    assert!(!p.writable(Port::Color, 256));
}

#[test]
fn coordinates_are_the_words_last_written() {
    let mut p: PortState<u16> = PortState::new();
    p.write_port(Port::XPos, 7);
    p.write_port(Port::YPos, 9);
    p.write_port(Port::XPos, 3);
    p.write_port(Port::YPos, 4);
    assert_eq!(p.read_port(Port::Char), 0);
    p.write_port(Port::Color, 2);
    p.write_port(Port::Ticker, 5);
    p.write_port(Port::Draw, 0);
    assert_eq!(p.read_port(Port::XPos), 3);
    assert_eq!(p.read_port(Port::YPos), 4);
    assert_eq!(p.read_port(Port::Flip), 0);
    assert_eq!(p.read_port(Port::Draw), 0);
}

#[test]
fn random_reads_give_words() {
    let mut p: PortState<u8> = PortState::new();
    let a = p.read_port(Port::Random);
    let b = p.read_port(Port::Random);
    let c = p.read_port(Port::Random);
    let d = p.read_port(Port::Random);
    assert!(!(a == b && b == c && c == d && a == 0));
}

#[test]
fn mask_documented_examples() {
    assert_eq!(mask::<u64>(2, 2), Ok(2));
    assert_eq!(mask::<u64>(0xff, 8), Ok(0xff));
    assert_eq!(mask::<u64>(u64::MAX, 4), Ok(0b1111));
}

#[test]
fn parse_int_documented_examples() {
    assert_eq!(parse_int("0x10"), Ok(16));
    assert_eq!(parse_int("0b1010"), Ok(10));
    assert_eq!(parse_int("0o10"), Ok(8));
    assert_eq!(parse_int("10"), Ok(10));
    assert_eq!(parse_int("-1"), Ok(u64::MAX));
    assert_eq!(parse_int("-0b101"), Ok(u64::MAX - 4));
}
