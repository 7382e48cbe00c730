use quickshot::color::Rgb8;
use quickshot::model::{cursor_name_for_handle, Btn, Ratio, Tool};

#[test]
fn tool_labels() {
    assert_eq!(Tool::Select.label(), "Chọn vùng (S)");
    assert_eq!(Tool::Pixelate.label(), "Làm mờ / pixel hoá (B)");
    assert_eq!(Tool::Picker.label(), "Lấy màu (C)");
}

#[test]
fn ratio_labels_and_fractions() {
    assert_eq!(Ratio::Free.label(), "Tự do");
    assert_eq!(Ratio::R16x9.label(), "16:9");
    assert_eq!(Ratio::Free.fraction(), None);
    assert_eq!(Ratio::R4x3.fraction(), Some((4, 3)));
    assert_eq!(Ratio::R9x16.fraction(), Some((9, 16)));
}

#[test]
fn tab_order_of_ratios() {
    let mut r = Ratio::Free;
    let mut seen = vec![r];
    for _ in 0..6 {
        r = r.next();
        seen.push(r);
    }
    assert_eq!(
        seen,
        vec![Ratio::Free, Ratio::R1x1, Ratio::R4x3, Ratio::R16x9, Ratio::R3x2, Ratio::R9x16, Ratio::Free]
    );
}

#[test]
fn ratio_parse_accepts_the_documented_spellings() {
    assert_eq!(Ratio::parse("free"), Some(Ratio::Free));
    assert_eq!(Ratio::parse("0"), Some(Ratio::Free));
    assert_eq!(Ratio::parse("tudo"), Some(Ratio::Free));
    assert_eq!(Ratio::parse("tự do"), Some(Ratio::Free));
    assert_eq!(Ratio::parse("  Square "), Some(Ratio::R1x1));
    assert_eq!(Ratio::parse("16X9"), Some(Ratio::R16x9));
    assert_eq!(Ratio::parse("\t3:2\n"), Some(Ratio::R3x2));
    assert_eq!(Ratio::parse("9x16"), Some(Ratio::R9x16));
    assert_eq!(Ratio::parse("4x3"), Some(Ratio::R4x3));
}

#[test]
fn ratio_parse_rejects_others() {
    assert_eq!(Ratio::parse("2:1"), None);
    assert_eq!(Ratio::parse(""), None);
    // only ASCII letters are lowered
    assert_eq!(Ratio::parse("TỰ DO"), None);
}

#[test]
fn every_label_parses_back() {
    for r in [Ratio::Free, Ratio::R1x1, Ratio::R4x3, Ratio::R16x9, Ratio::R3x2, Ratio::R9x16] {
        assert_eq!(Ratio::parse(r.label()), Some(r));
    }
}

#[test]
fn settings_ratio_names_parse() {
    let names = ["free", "1:1", "4:3", "16:9", "3:2", "9:16"];
    let all = [Ratio::Free, Ratio::R1x1, Ratio::R4x3, Ratio::R16x9, Ratio::R3x2, Ratio::R9x16];
    for (n, r) in names.iter().zip(all) {
        assert_eq!(Ratio::parse(n), Some(r));
    }
}

#[test]
fn button_labels() {
    assert_eq!(Btn::Tool(Tool::Text).label(), "Chữ (T)");
    assert_eq!(Btn::Undo.label(), "Hoàn tác (Ctrl+Z)");
    assert_eq!(Btn::Color(3).label(), "Chọn màu (phím 1-9, 0)");
    assert_eq!(Btn::Ratio.label(), "Tỉ lệ khung chọn (Tab)");
}

#[test]
fn handle_cursors() {
    assert_eq!(cursor_name_for_handle(0), "nw-resize");
    assert_eq!(cursor_name_for_handle(5), "s-resize");
    assert_eq!(cursor_name_for_handle(7), "w-resize");
    assert_eq!(cursor_name_for_handle(42), "w-resize");
}

#[test]
fn hex_colors_read() {
    assert_eq!(Rgb8::from_hex("#FF8000"), Some(Rgb8 { r: 255, g: 128, b: 0 }));
    assert_eq!(Rgb8::from_hex("  ff8000\n"), Some(Rgb8 { r: 255, g: 128, b: 0 }));
    assert_eq!(Rgb8::from_hex("##0a0B0c"), Some(Rgb8 { r: 10, g: 11, b: 12 }));
}

#[test]
fn hex_colors_rejected() {
    assert_eq!(Rgb8::from_hex("#FFF"), None);
    assert_eq!(Rgb8::from_hex("#GG0000"), None);
    assert_eq!(Rgb8::from_hex("#FF00001"), None);
    assert_eq!(Rgb8::from_hex(""), None);
    assert_eq!(Rgb8::from_hex("-FFFFF"), None);
    assert_eq!(Rgb8::from_hex("#ÿÿÿ"), None);
    assert_eq!(Rgb8::from_hex("#+12345"), None);
    assert_eq!(Rgb8::from_hex("+FFFFF"), None);
}

#[test]
fn hex_colors_written() {
    assert_eq!(Rgb8 { r: 255, g: 0, b: 0 }.to_hex(), "#FF0000");
    assert_eq!(Rgb8 { r: 10, g: 171, b: 1 }.to_hex(), "#0AAB01");
}

#[test]
fn hex_round_trip() {
    for c in [Rgb8 { r: 0, g: 0, b: 0 }, Rgb8 { r: 1, g: 254, b: 128 }, Rgb8 { r: 255, g: 255, b: 255 }] {
        assert_eq!(Rgb8::from_hex(&c.to_hex()), Some(c));
    }
}

#[test]
fn hex_digits_come_back_upper_case() {
    let c = Rgb8::from_hex("#a0b1Cf").unwrap();
    assert_eq!(c.to_hex(), "#A0B1CF");
    let w = Rgb8 { r: 0, g: 9, b: 255 }.to_hex();
    assert_eq!(w, "#0009FF");
}
