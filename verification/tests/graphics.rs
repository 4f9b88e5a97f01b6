use kernel_core::drivers::port::PortWrite;
use kernel_core::graph::font_data::FontData;
use kernel_core::graph::font_writer::FontWriter;
use kernel_core::graph::graphics::Window;
use kernel_core::graph::planar::Planar;
use kernel_core::graph::planar_writer::{clip_above, clip_below, within, VgaPlanarWriter};
use kernel_core::graph::surface::Surface;
use kernel_core::graph::utils::{default_color_of, graphics_error, ColorCode, ColorPalette, CustomColor};
use kernel_core::math::vec2::Vec2;
use kernel_core::tooling::qemu_io::{qemu_print, qemu_print_hex, qemu_print_num, qemu_println, SerialWriter};
use kernel_core::tooling::vga::{write_str, Color, VGAWriter};

const PLANE: usize = 38400;

/// The colour number of the pixel in row `row` and column `col`.
fn pixel(writer: &VgaPlanarWriter, row: usize, col: usize) -> u8 {
    let mut code = 0;
    for plane in 0..4 {
        let byte = writer.plane_buffer[80 * row + col / 8 + plane * PLANE];
        if byte & (0x80 >> (col % 8)) != 0 {
            code |= 1 << plane;
        }
    }
    code
}

fn painted(writer: &VgaPlanarWriter) -> usize {
    let mut count = 0;
    for row in 0..480 {
        for col in 0..640 {
            if pixel(writer, row, col) != 0 {
                count += 1;
            }
        }
    }
    count
}

#[test]
fn colour_codes() {
    assert_eq!(ColorCode::Black.code(), 0);
    assert_eq!(ColorCode::Blue.code(), 1);
    assert_eq!(ColorCode::Green.code(), 2);
    assert_eq!(ColorCode::Cyan.code(), 3);
    assert_eq!(ColorCode::Red.code(), 4);
    assert_eq!(ColorCode::Magenta.code(), 5);
    assert_eq!(ColorCode::Brown.code(), 6);
    assert_eq!(ColorCode::White.code(), 7);
    assert_eq!(ColorCode::Gray.code(), 8);
    assert_eq!(ColorCode::BrightBlue.code(), 9);
    assert_eq!(ColorCode::BrightGreen.code(), 10);
    assert_eq!(ColorCode::BrightCyan.code(), 11);
    assert_eq!(ColorCode::BrightRed.code(), 12);
    assert_eq!(ColorCode::BrightMagenta.code(), 13);
    assert_eq!(ColorCode::Yellow.code(), 14);
    assert_eq!(ColorCode::BrightWhite.code(), 15);
    for code in 0..16 {
        assert_eq!(ColorCode::from_code(code).unwrap().code(), code);
    }
    assert_eq!(ColorCode::from_code(16), None);
    assert_eq!(graphics_error(), "Oh no!, we got a graphics error!");
}

#[test]
fn default_palette() {
    let expected: [(u8, u8, u8); 16] = [
        (0, 0, 0),
        (0, 0, 42),
        (0, 42, 0),
        (0, 42, 42),
        (42, 0, 0),
        (42, 0, 42),
        (42, 42, 0),
        (42, 42, 42),
        (0, 0, 21),
        (0, 0, 63),
        (0, 42, 21),
        (0, 42, 63),
        (42, 0, 21),
        (42, 0, 63),
        (42, 42, 21),
        (42, 42, 63),
    ];
    let palette = ColorPalette::new();
    for i in 0..16 {
        assert_eq!(default_color_of(i), expected[i]);
        let entry = palette.color_entries[i];
        assert_eq!((entry.red, entry.green, entry.blue), expected[i]);
    }
}

#[test]
fn palette_entries_can_be_changed_and_reset() {
    let mut palette = ColorPalette::new();
    let red = CustomColor::new(63, 1, 2);
    assert_eq!((red.red, red.green, red.blue), (63, 1, 2));
    palette.update_color_entry(15, red);
    assert_eq!(palette.color_entries[15].green, 1);
    assert_eq!(palette.color_entries[14].green, 42);
    let bytes = palette.dac_bytes();
    assert_eq!(bytes.len(), 48);
    assert_eq!(&bytes[..6], &[0, 0, 0, 0, 0, 42]);
    assert_eq!(&bytes[45..], &[63, 1, 2]);
    let writes = palette.update_vga_dac_state();
    assert_eq!(writes.len(), 49);
    assert_eq!(writes[0], PortWrite::Byte(0x3C8, 0));
    assert_eq!(writes[6], PortWrite::Byte(0x3C9, 42));
    assert_eq!(writes[46], PortWrite::Byte(0x3C9, 63));
    assert_eq!(writes[48], PortWrite::Byte(0x3C9, 2));
    palette.reset();
    assert_eq!(palette.color_entries[15].red, 42);
    assert_eq!(palette.color_entries[15].blue, 63);
}

#[test]
fn planes_are_chosen_by_port_writes() {
    let (mut planar, writes) = Planar::new();
    assert_eq!(planar.current_planar, 0);
    assert_eq!(writes, vec![PortWrite::Byte(0x3CE, 0x5), PortWrite::Word(0xC4, 0x102)]);
    assert_eq!(Planar::indicate_planar_switch(), PortWrite::Byte(0x3CE, 0x5));
    assert_eq!(Planar::plane_0(), PortWrite::Word(0xC4, 0x102));
    assert_eq!(Planar::plane_1(), PortWrite::Word(0x3C4, 0x202));
    assert_eq!(Planar::plane_2(), PortWrite::Word(0x3C4, 0x402));
    assert_eq!(Planar::plane_3(), PortWrite::Word(0x3C4, 0x802));
    assert_eq!(planar.switch(2), vec![PortWrite::Byte(0x3CE, 0x5), PortWrite::Word(0x3C4, 0x402)]);
    assert_eq!(planar.current_planar, 2);
    assert_eq!(planar.next(), vec![PortWrite::Byte(0x3CE, 0x5), PortWrite::Word(0x3C4, 0x802)]);
    assert_eq!(planar.current_planar, 3);
    assert_eq!(planar.next(), vec![PortWrite::Byte(0x3CE, 0x5), PortWrite::Word(0xC4, 0x102)]);
    assert_eq!(planar.current_planar, 0);
    assert_eq!(planar.restore(), PortWrite::Word(0x3C4, 0xF02));
    assert_eq!(planar.current_planar, 0);
}

#[test]
fn surfaces() {
    let cells = vec![ColorCode::Red, ColorCode::Blue, ColorCode::Green, ColorCode::Black, ColorCode::White, ColorCode::Cyan];
    let mut surface = Surface::from_buffer(cells, 2, 3, Some(ColorCode::Black));
    assert_eq!(surface.get_height(), 2);
    assert_eq!(surface.get_width(), 3);
    assert_eq!(surface.get_ignore_color(), Some(ColorCode::Black));
    assert_eq!(surface.background_color, Some(ColorCode::Black));
    assert_eq!((surface.get_origin().x, surface.get_origin().y), (0, 0));
    assert_eq!(surface.get_cell(0, 0), ColorCode::Red);
    assert_eq!(surface.get_cell(0, 2), ColorCode::Green);
    assert_eq!(surface.get_cell(1, 0), ColorCode::Black);
    assert_eq!(surface.get_cell(1, 2), ColorCode::Cyan);
    surface.set_origin(Vec2::<usize>::new(7, 9));
    assert_eq!((surface.get_origin().x, surface.get_origin().y), (7, 9));
    let blank = Surface::from_blank(4, 5);
    assert_eq!((blank.get_width(), blank.get_height()), (4, 5));
    assert_eq!(blank.buffer, vec![ColorCode::Black; 20]);
    assert_eq!(blank.get_ignore_color(), Some(ColorCode::Black));
    let _window = Window { width: 640, height: 480, id: 1 };
}

fn glyph_with_corners() -> Vec<u8> {
    // the first and the last pixel of the first row, and the last pixel of all
    let mut glyph = vec![0u8; 24];
    glyph[0] = 0x80;
    glyph[1] = 0x10;
    glyph[23] = 0x01;
    glyph
}

#[test]
fn surface_of_a_character() {
    let font = FontData { font_width: 12, font_height: 16 };
    let surface = Surface::from_font(&glyph_with_corners(), font, ColorCode::Green, None);
    assert_eq!((surface.get_width(), surface.get_height()), (12, 16));
    assert_eq!(surface.get_ignore_color(), Some(ColorCode::Black));
    assert_eq!(surface.background_color, None);
    assert_eq!(surface.buffer.len(), 192);
    assert_eq!(surface.get_cell(0, 0), ColorCode::Green);
    assert_eq!(surface.get_cell(0, 11), ColorCode::Green);
    assert_eq!(surface.get_cell(15, 11), ColorCode::Green);
    assert_eq!(surface.buffer.iter().filter(|c| **c == ColorCode::Green).count(), 3);
    assert_eq!(surface.buffer.iter().filter(|c| **c == ColorCode::Black).count(), 189);
    let boxed = Surface::from_font(&glyph_with_corners(), font, ColorCode::Green, Some(ColorCode::Blue));
    assert_eq!(boxed.get_ignore_color(), None);
    assert_eq!(boxed.get_cell(0, 1), ColorCode::Blue);
    assert_eq!(boxed.buffer.iter().filter(|c| **c == ColorCode::Blue).count(), 189);
}

#[test]
fn pixels_go_to_four_planes() {
    let mut writer = VgaPlanarWriter::new();
    assert_eq!(writer.plane_buffer.len(), 4 * PLANE);
    assert_eq!(painted(&writer), 0);
    writer.write_pixel(0, 0, ColorCode::BrightWhite);
    for plane in 0..4 {
        assert_eq!(writer.plane_buffer[plane * PLANE], 0x80);
    }
    writer.write_pixel(0, 7, ColorCode::Magenta);
    assert_eq!(writer.plane_buffer[0], 0x81);
    assert_eq!(writer.plane_buffer[PLANE], 0x80);
    assert_eq!(writer.plane_buffer[2 * PLANE], 0x81);
    assert_eq!(writer.plane_buffer[3 * PLANE], 0x80);
    writer.write_pixel(0, 0, ColorCode::Green);
    assert_eq!(writer.plane_buffer[0], 0x01);
    assert_eq!(writer.plane_buffer[PLANE], 0x80);
    assert_eq!(writer.plane_buffer[2 * PLANE], 0x01);
    assert_eq!(writer.plane_buffer[3 * PLANE], 0x00);
    writer.write_pixel(479, 639, ColorCode::Blue);
    assert_eq!(writer.plane_buffer[PLANE - 1], 0x01);
    assert_eq!(pixel(&writer, 479, 639), 1);
    assert_eq!(pixel(&writer, 0, 0), 2);
    assert_eq!(pixel(&writer, 0, 7), 5);
    // a column behind the last one goes on in the next row
    writer.write_pixel(3, 640, ColorCode::Red);
    assert_eq!(pixel(&writer, 4, 0), 4);
    assert_eq!(painted(&writer), 4);
    writer.reset_plane_buffer();
    assert_eq!(painted(&writer), 0);
}

#[test]
fn clipping() {
    let writer = VgaPlanarWriter::new();
    assert_eq!(writer.col_clip(-5), 0);
    assert_eq!(writer.col_clip(0), 0);
    assert_eq!(writer.col_clip(300), 300);
    assert_eq!(writer.col_clip(639), 639);
    assert_eq!(writer.col_clip(640), 639);
    assert_eq!(writer.col_clip(i32::MAX), 639);
    assert_eq!(writer.row_clip(i32::MIN), 0);
    assert_eq!(writer.row_clip(479), 479);
    assert_eq!(writer.row_clip(480), 479);
}

#[test]
fn rectangles() {
    let mut writer = VgaPlanarWriter::new();
    writer.write_rect((100, 200), 10, 4, ColorCode::Red);
    // rows 98 to 101, columns 195 to 204
    assert_eq!(painted(&writer), 40);
    assert_eq!(pixel(&writer, 98, 195), 4);
    assert_eq!(pixel(&writer, 101, 204), 4);
    assert_eq!(pixel(&writer, 97, 195), 0);
    assert_eq!(pixel(&writer, 102, 204), 0);
    assert_eq!(pixel(&writer, 98, 194), 0);
    assert_eq!(pixel(&writer, 98, 205), 0);
    writer.write_rect((100, 200), 3, 3, ColorCode::Blue);
    // rows 99 to 101, columns 199 to 201
    assert_eq!(pixel(&writer, 99, 199), 1);
    assert_eq!(pixel(&writer, 101, 201), 1);
    assert_eq!(pixel(&writer, 98, 199), 4);
    assert_eq!(pixel(&writer, 99, 202), 4);
    let mut corner = VgaPlanarWriter::new();
    corner.write_rect((0, 0), 10, 10, ColorCode::Green);
    assert_eq!(painted(&corner), 25);
    let mut outside = VgaPlanarWriter::new();
    outside.write_rect((1000, 1000), 10, 10, ColorCode::Green);
    assert_eq!(painted(&outside), 0);
    let mut whole = VgaPlanarWriter::new();
    whole.write_rect((240, 320), 2000, 2000, ColorCode::Green);
    assert_eq!(painted(&whole), 479 * 639);
}

#[test]
fn discs() {
    let mut writer = VgaPlanarWriter::new();
    writer.write_circle((100, 100), 3, ColorCode::Yellow);
    let mut expected = 0;
    for row in 97..103i32 {
        for col in 97..103i32 {
            let inside = (100 - row).pow(2) + (100 - col).pow(2) < 9;
            assert_eq!(pixel(&writer, row as usize, col as usize) == 14, inside);
            if inside {
                expected += 1;
            }
        }
    }
    assert_eq!(expected, 25);
    assert_eq!(painted(&writer), 25);
    let mut corner = VgaPlanarWriter::new();
    corner.write_circle((0, 0), 100, ColorCode::Green);
    assert_eq!(pixel(&corner, 0, 0), 2);
    assert_eq!(pixel(&corner, 0, 99), 2);
    assert_eq!(pixel(&corner, 99, 0), 2);
    assert_eq!(pixel(&corner, 71, 71), 0);
    assert_eq!(pixel(&corner, 70, 70), 2);
    let mut nothing = VgaPlanarWriter::new();
    nothing.write_circle((50, 50), 0, ColorCode::Green);
    assert_eq!(painted(&nothing), 0);
}

#[test]
fn surfaces_are_painted_at_their_origin() {
    let cells = vec![ColorCode::Red, ColorCode::Black, ColorCode::Green, ColorCode::Blue];
    let mut surface = Surface::from_buffer(cells, 2, 2, Some(ColorCode::Black));
    surface.set_origin(Vec2::<usize>::new(10, 20));
    let mut writer = VgaPlanarWriter::new();
    writer.fill_screen(ColorCode::White);
    assert_eq!(pixel(&writer, 0, 0), 7);
    assert_eq!(pixel(&writer, 479, 639), 7);
    assert_eq!(writer.plane_buffer[3 * PLANE], 0);
    assert_eq!(writer.plane_buffer[2 * PLANE], 0xFF);
    writer.write_surface(&surface);
    assert_eq!(pixel(&writer, 10, 20), 4);
    assert_eq!(pixel(&writer, 10, 21), 7);
    assert_eq!(pixel(&writer, 11, 20), 2);
    assert_eq!(pixel(&writer, 11, 21), 1);
    assert_eq!(pixel(&writer, 12, 20), 7);
    let all = Surface::from_buffer(vec![ColorCode::Black; 4], 2, 2, None);
    writer.write_surface(&all);
    assert_eq!(pixel(&writer, 0, 0), 0);
    assert_eq!(pixel(&writer, 1, 1), 0);
    assert_eq!(pixel(&writer, 2, 2), 7);
    assert_eq!(writer.plane(0).len(), PLANE);
    assert_eq!(writer.plane(3), &writer.plane_buffer[3 * PLANE..]);
    writer.replicate_plane(1);
    writer.on_new_frame();
    writer.color_test();
    assert_eq!(writer.palette.color_entries[0].red, 63);
    assert_eq!(writer.palette.color_entries[0].green, 0);
    assert_eq!(writer.palette.color_entries[1].blue, 42);
}

fn loaded_writer() -> FontWriter {
    let mut fonts = FontWriter::new(FontData { font_width: 12, font_height: 16 });
    fonts.load_char_surface('+', ColorCode::Green, Some(ColorCode::Black), &glyph_with_corners());
    fonts
}

#[test]
fn font_writer_starts_in_the_corner() {
    let mut fonts = FontWriter::new(FontData { font_width: 12, font_height: 16 });
    assert_eq!((fonts.get_cursor_pos().x, fonts.get_cursor_pos().y), (0, 0));
    assert_eq!((fonts.horizontal_spacing.x, fonts.horizontal_spacing.y), (0, 2));
    assert_eq!((fonts.vertical_spacing.x, fonts.vertical_spacing.y), (3, 0));
    assert_eq!((fonts.box_size.x, fonts.box_size.y), (480, 640));
    assert!(!fonts.out_of_bounds_flag);
    assert!(fonts.loaded.iter().all(|l| !*l));
    assert_eq!(fonts.char_surface_buffer.len(), 2048);
    assert!(fonts.check_horizontal_retrace(Vec2::<usize>::new(0, 625)));
    assert!(!fonts.check_horizontal_retrace(Vec2::<usize>::new(0, 626)));
    assert!(fonts.check_vertical_retrace(Vec2::<usize>::new(460, 0)));
    assert!(!fonts.check_vertical_retrace(Vec2::<usize>::new(461, 0)));
    fonts.new_line();
    assert_eq!((fonts.get_cursor_pos().x, fonts.get_cursor_pos().y), (19, 0));
    fonts.cursor_pos = Vec2::<usize>::new(5, 50);
    fonts.do_horizontal_retrace();
    assert_eq!((fonts.get_cursor_pos().x, fonts.get_cursor_pos().y), (24, 0));
}

#[test]
fn font_writer_keeps_to_its_box() {
    let mut fonts = FontWriter::new(FontData { font_width: 12, font_height: 16 });
    fonts.set_cursor_pos(Vec2::<usize>::new(200, 200));
    assert_eq!((fonts.horizontal_retrace, fonts.vertical_retrace), (200, 200));
    assert!(!fonts.out_of_bounds_flag);
    fonts.set_box_size(Vec2::<usize>::new(50, 100));
    assert!(!fonts.out_of_bounds_flag);
    fonts.set_box_size(Vec2::<usize>::new(50, 14));
    assert!(fonts.out_of_bounds_flag);
    fonts.set_box_size(Vec2::<usize>::new(50, 15));
    assert!(!fonts.out_of_bounds_flag);
    fonts.set_box_size(Vec2::<usize>::new(19, 100));
    assert!(fonts.out_of_bounds_flag);
    fonts.set_box_size(Vec2::<usize>::new(20, 100));
    assert!(!fonts.out_of_bounds_flag);
    fonts.set_horizontal_spacing(Vec2::<usize>::new(0, 88));
    assert!(fonts.out_of_bounds_flag);
    fonts.set_horizontal_spacing(Vec2::<usize>::new(0, 87));
    assert!(!fonts.out_of_bounds_flag);
    fonts.set_vertical_spacing(Vec2::<usize>::new(4, 0));
    assert!(fonts.out_of_bounds_flag);
    fonts.set_vertical_spacing(Vec2::<usize>::new(3, 0));
    assert!(!fonts.out_of_bounds_flag);
    fonts.set_cursor_pos(Vec2::<usize>::new(470, 0));
    assert!(fonts.out_of_bounds_flag);
    fonts.cursor_pos = Vec2::<usize>::new(0, 0);
    fonts.check_cursor_pos();
    assert!(fonts.out_of_bounds_flag);
}

#[test]
fn font_writer_writes_and_moves_on() {
    let mut fonts = loaded_writer();
    let at = '+' as usize * 16 + 2;
    assert!(fonts.loaded[at]);
    assert_eq!(fonts.loaded.iter().filter(|l| **l).count(), 1);
    let mut screen = VgaPlanarWriter::new();
    screen.fill_screen(ColorCode::White);
    fonts.set_cursor_pos(Vec2::<usize>::new(100, 600));
    assert!(fonts.write_char(&mut screen, '+', ColorCode::Green));
    assert_eq!((fonts.cursor_pos.x, fonts.cursor_pos.y), (100, 614));
    assert_eq!(pixel(&screen, 100, 600), 2);
    assert_eq!(pixel(&screen, 100, 611), 2);
    assert_eq!(pixel(&screen, 115, 611), 2);
    assert_eq!(pixel(&screen, 100, 601), 0);
    assert_eq!(pixel(&screen, 100, 612), 7);
    assert_eq!(pixel(&screen, 116, 611), 7);
    assert!(fonts.write_char(&mut screen, '+', ColorCode::Green));
    assert_eq!((fonts.cursor_pos.x, fonts.cursor_pos.y), (100, 628));
    assert_eq!(pixel(&screen, 100, 614), 2);
    // the next character does not fit the line: it goes to the next line
    assert!(fonts.write_char(&mut screen, '+', ColorCode::Green));
    assert_eq!((fonts.cursor_pos.x, fonts.cursor_pos.y), (119, 614));
    assert_eq!(pixel(&screen, 119, 600), 2);
    assert_eq!(pixel(&screen, 119, 611), 2);
    assert!(!fonts.out_of_bounds_flag);
    // at the bottom nothing is written
    fonts.set_cursor_pos(Vec2::<usize>::new(461, 0));
    fonts.out_of_bounds_flag = false;
    let before = screen.plane_buffer.clone();
    assert!(!fonts.write_char(&mut screen, '+', ColorCode::Green));
    assert!(fonts.out_of_bounds_flag);
    assert_eq!((fonts.cursor_pos.x, fonts.cursor_pos.y), (461, 0));
    assert_eq!(screen.plane_buffer, before);
}

#[test]
fn text_buffer_writer() {
    let mut writer = VGAWriter::new();
    assert_eq!(writer.buffer.len(), 4000);
    assert_eq!((writer.idx, writer.color), (3840, 0xF));
    assert_eq!(writer.get_line(), 3840 / 50);
    assert_eq!(writer.get_col(), 0);
    writer.write_color("Hi", Some(0x0C));
    assert_eq!(&writer.buffer[3840..3844], &[b'H', 0x0C, b'i', 0x0C]);
    assert_eq!(writer.idx, 3844);
    assert_eq!(writer.get_col(), 4);
    writer.write_color("é€", None);
    assert_eq!(&writer.buffer[3844..3848], &[0xE9, 0x0F, 0xAC, 0x0F]);
    writer.newline();
    assert_eq!(writer.idx, 3840);
    writer.color = Color::YELLOW;
    writer.write_str("ab");
    assert_eq!(&writer.buffer[3840..3844], &[b'a', 14, b'b', 14]);
    writer.writeln_color("xyz", Some(Color::LIGHT_RED));
    assert_eq!(&writer.buffer[3844..3850], &[b'x', 12, b'y', 12, b'z', 12]);
    assert_eq!(writer.idx, 3840);
    writer.copy_to_vga();
}

#[test]
fn text_buffer_writer_leaves_out_what_does_not_fit() {
    let mut writer = VGAWriter::new();
    writer.idx = 3996;
    writer.write_color("abcd", Some(1));
    assert_eq!(&writer.buffer[3996..], &[b'a', 1, b'b', 1]);
    assert_eq!(writer.idx, 4000);
    let mut odd = VGAWriter::new();
    odd.idx = 3999;
    odd.write_color("a", Some(1));
    assert_eq!(odd.buffer[3999], 0);
    assert_eq!(odd.idx, 3999);
    let mut at = VGAWriter::new();
    at.write_str_at("err: div zero", 5, 0, 0xDE);
    assert_eq!(&at.buffer[800..806], &[b'e', 0xDE, b'r', 0xDE, b'r', 0xDE]);
    assert_eq!(at.buffer[800 + 24], b'o');
    assert_eq!(at.buffer[800 + 26], 0);
    assert_eq!(at.idx, 800 + 13);
    at.write_str_at("x", 24, 79, 1);
    assert_eq!(&at.buffer[3998..], &[b'x', 1]);
    let kept = write_str("ignored", Some(at), 3);
    assert_eq!(kept.idx, 3999);
    let fresh = write_str("ignored", None, 3);
    assert_eq!((fresh.idx, fresh.color), (3840, 0xF));
}

#[test]
fn serial_text() {
    let _writer = SerialWriter::new();
    assert_eq!(qemu_print_hex(0x1234_ABCD), b"0x1234ABCD\n".to_vec());
    assert_eq!(qemu_print_hex(0), b"0x00000000\n".to_vec());
    assert_eq!(qemu_print_hex(u32::MAX), b"0xFFFFFFFF\n".to_vec());
    assert_eq!(qemu_print_num(0), b"0".to_vec());
    assert_eq!(qemu_print_num(7), b"7".to_vec());
    assert_eq!(qemu_print_num(10), b"10".to_vec());
    assert_eq!(qemu_print_num(1234567890), b"1234567890".to_vec());
    assert_eq!(qemu_print_num(u64::MAX), b"18446744073709551615".to_vec());
    assert_eq!(qemu_print("Test!"), b"Test!".to_vec());
    assert_eq!(qemu_println("Test!"), b"Test!\n".to_vec());
    assert_eq!(qemu_println(""), b"\n".to_vec());
}

fn text_writer() -> FontWriter {
    let mut fonts = FontWriter::new(FontData { font_width: 12, font_height: 16 });
    let mut glyphs = vec![0u8; 95 * 24];
    for code in 32usize..127 {
        // the first pixel of every glyph but the space is set
        if code != 32 {
            glyphs[(code - 32) * 24] = 0x80;
        }
        // and the pixel in the first row whose column is the code modulo 11, plus one
        let bit = 1 + code % 11;
        glyphs[(code - 32) * 24 + bit / 8] |= 0x80 >> (bit % 8);
    }
    fonts.load_text_color(ColorCode::Green, None, &glyphs);
    fonts
}

#[test]
fn text_color_loads_the_printable_characters() {
    let fonts = text_writer();
    for code in 0..128usize {
        for color in 0..16usize {
            let expected = (32..=126).contains(&code) && color == 2;
            assert_eq!(fonts.loaded[code * 16 + color], expected);
        }
    }
    let a = &fonts.char_surface_buffer['A' as usize * 16 + 2];
    assert_eq!(a.get_cell(0, 0), ColorCode::Green);
    assert_eq!(a.get_cell(0, 1 + 65 % 11), ColorCode::Green);
    assert_eq!(a.buffer.iter().filter(|c| **c == ColorCode::Green).count(), 2);
    assert_eq!(a.get_ignore_color(), Some(ColorCode::Black));
}

#[test]
fn text_is_written_from_the_cursor_on() {
    let mut fonts = text_writer();
    let mut screen = VgaPlanarWriter::new();
    fonts.cursor_pos = Vec2::<usize>::new(10, 20);
    fonts.write(&mut screen, "AB\nC", ColorCode::Green);
    assert_eq!((fonts.horizontal_retrace, fonts.vertical_retrace), (20, 10));
    // A at column 20, B at column 34, then a new line, C below B's end
    assert_eq!(pixel(&screen, 10, 20), 2);
    assert_eq!(pixel(&screen, 10, 20 + 1 + 65 % 11), 2);
    assert_eq!(pixel(&screen, 10, 34), 2);
    assert_eq!(pixel(&screen, 10, 34 + 1 + 66 % 11), 2);
    assert_eq!(pixel(&screen, 29, 48), 2);
    assert_eq!(pixel(&screen, 29, 48 + 1 + 67 % 11), 2);
    assert_eq!(painted(&screen), 6);
    assert_eq!((fonts.cursor_pos.x, fonts.cursor_pos.y), (29, 62));
    assert!(!fonts.out_of_bounds_flag);
}

#[test]
fn text_goes_on_in_the_next_line_of_its_box() {
    let mut fonts = text_writer();
    let mut screen = VgaPlanarWriter::new();
    fonts.set_cursor_pos(Vec2::<usize>::new(200, 200));
    fonts.set_box_size(Vec2::<usize>::new(50, 100));
    fonts.write_and_retrace(&mut screen, "+++++++++++++++", ColorCode::Green);
    // seven characters fit a line of the box, two lines fit its rows
    let mut starts = Vec::new();
    for row in 0..480 {
        for col in 0..640 {
            if pixel(&screen, row, col) != 0 && (col - 200) % 14 == 0 {
                starts.push((row, col));
            }
        }
    }
    let expected: Vec<(usize, usize)> = (0..2)
        .flat_map(|line| (0..7).map(move |k| (200 + 19 * line, 200 + 14 * k)))
        .collect();
    assert_eq!(starts, expected);
    assert_eq!(painted(&screen), 28);
    assert_eq!((fonts.cursor_pos.x, fonts.cursor_pos.y), (200, 200));
    assert!(!fonts.out_of_bounds_flag);
    // the flag that a write left up ends the next write after one character
    fonts.out_of_bounds_flag = true;
    fonts.cursor_pos = Vec2::<usize>::new(300, 0);
    fonts.write(&mut screen, "AB", ColorCode::Green);
    assert_eq!((fonts.cursor_pos.x, fonts.cursor_pos.y), (300, 14));
    assert_eq!(painted(&screen), 30);
}

#[test]
fn register_writes_of_the_screen() {
    assert_eq!(
        VgaPlanarWriter::setup_registers_for_present(),
        vec![
            PortWrite::Byte(0x3CE, 0x03),
            PortWrite::Byte(0x3CF, 0x00),
            PortWrite::Byte(0x3CE, 0x08),
            PortWrite::Byte(0x3CF, 0xFF),
            PortWrite::Byte(0x3CE, 0x01),
            PortWrite::Byte(0x3CF, 0x00),
        ]
    );
    assert_eq!(
        VgaPlanarWriter::set_memory_plane_write_enable(0x04),
        vec![PortWrite::Byte(0x3C4, 0x02), PortWrite::Byte(0x3C5, 0x04)]
    );
    assert_eq!(
        VgaPlanarWriter::set_write_mode(2, 0xFF),
        vec![PortWrite::Byte(0x3CE, 0x05), PortWrite::Byte(0x3CF, 0xFE)]
    );
    assert_eq!(VgaPlanarWriter::set_write_mode(0, 0x03)[1], PortWrite::Byte(0x3CF, 0x00));
    let reset = VgaPlanarWriter::setup_registers_for_reset(0x57);
    assert_eq!(
        reset,
        vec![
            PortWrite::Byte(0x3CE, 0x05),
            PortWrite::Byte(0x3CF, 0x54),
            PortWrite::Byte(0x3CE, 0x01),
            PortWrite::Byte(0x3CF, 0xFF),
            PortWrite::Byte(0x3CE, 0x00),
            PortWrite::Byte(0x3CF, 0x00),
            PortWrite::Byte(0xC4, 0x02),
            PortWrite::Byte(0xC5, 0xFF),
        ]
    );
    let mut writer = VgaPlanarWriter::new();
    assert_eq!(writer.reset_video_memory(0x57), reset);
    let steps = writer.present(7);
    assert_eq!(steps.len(), 4);
    for (k, step) in steps.iter().enumerate() {
        assert_eq!(step, &vec![PortWrite::Byte(0x3C4, 0x02), PortWrite::Byte(0x3C5, 1 << k)]);
    }
    writer.write_pixel(0, 0, ColorCode::Green);
    writer.write_pixel(0, 15, ColorCode::Green);
    let text = writer.print_plane(1);
    assert_eq!(&text[..4], b"1281");
    assert_eq!(text.len(), 38400 + 2);
    assert!(text[4..].iter().all(|b| *b == b'0'));
    assert_eq!(writer.print_plane(0), vec![b'0'; 38400]);
}

#[test]
fn palette_entries_are_shown_in_hexadecimal() {
    let (select, text) = ColorPalette::read_vga_dac_state(5, 42, 0, 63);
    assert_eq!(select, PortWrite::Byte(0x3C7, 5));
    assert_eq!(text, b"0x0000002A\n0x00000000\n0x0000003F\n\n".to_vec());
}

#[test]
fn shapes_of_any_size_are_held_to_the_screen() {
    let mut far = VgaPlanarWriter::new();
    far.write_rect((usize::MAX, usize::MAX), usize::MAX, usize::MAX, ColorCode::Green);
    assert_eq!(painted(&far), 0);
    let mut wide = VgaPlanarWriter::new();
    wide.write_rect((0, 0), usize::MAX, 2, ColorCode::Green);
    // row 0, all columns but the last
    assert_eq!(painted(&wide), 639);
    let mut huge = VgaPlanarWriter::new();
    huge.write_circle((240, 320), usize::MAX, ColorCode::Red);
    assert_eq!(painted(&huge), 479 * 639);
    let mut away = VgaPlanarWriter::new();
    away.write_circle((usize::MAX, 320), 10, ColorCode::Red);
    assert_eq!(painted(&away), 0);
    let mut reach = VgaPlanarWriter::new();
    reach.write_circle((100_000, 0), 100_000, ColorCode::Red);
    // the disc's rim passes through row 0 and misses it in column 0
    assert_eq!(pixel(&reach, 0, 0), 0);
    assert_eq!(pixel(&reach, 1, 0), 4);
}

#[test]
fn clipping_and_the_distance_test() {
    assert_eq!(clip_below(5, 7, 639), 0);
    assert_eq!(clip_below(700, 7, 639), 639);
    assert_eq!(clip_below(70, 7, 639), 63);
    assert_eq!(clip_above(usize::MAX, usize::MAX, 479), 479);
    assert_eq!(clip_above(400, 79, 479), 479);
    assert_eq!(clip_above(400, 78, 479), 478);
    assert!(within((10, 10), 5, 7, 13));
    assert!(!within((10, 10), 5, 7, 6));
    assert!(!within((10, 10), 0, 10, 10));
    assert!(within((usize::MAX, 0), usize::MAX, 1, 0));
    assert!(!within((usize::MAX, 0), usize::MAX, 0, 0));
}

#[test]
fn font_writer_far_off_the_screen_writes_nothing() {
    let mut fonts = loaded_writer();
    let mut screen = VgaPlanarWriter::new();
    fonts.set_cursor_pos(Vec2::<usize>::new(1_000_000, 0));
    assert!(fonts.out_of_bounds_flag);
    fonts.write(&mut screen, "+\n+", ColorCode::Green);
    assert!(fonts.out_of_bounds_flag);
    assert_eq!((fonts.cursor_pos.x, fonts.cursor_pos.y), (1_000_000, 0));
    assert_eq!(painted(&screen), 0);
    // wide spacings move the cursor as they say
    fonts.set_cursor_pos(Vec2::<usize>::new(0, 0));
    fonts.set_vertical_spacing(Vec2::<usize>::new(100_000, 70_000));
    fonts.new_line();
    assert_eq!((fonts.cursor_pos.x, fonts.cursor_pos.y), (100_016, 70_000));
}
