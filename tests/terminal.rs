use slide_render::layout::{Directive, Presentation, RenderError};
use slide_render::terminal::{directive_code, encode, render_slide, render_text_top_right};
use slide_render::theme::{Rgb, Theme};

fn theme() -> Theme {
    Theme {
        green: Rgb(1, 2, 3),
        teal: Rgb(4, 5, 6),
        red: Rgb(7, 8, 9),
        peach: Rgb(10, 11, 12),
    }
}

#[test]
fn directive_codes() {
    assert_eq!(directive_code(&Directive::ClearAll), "\x1b[2J");
    assert_eq!(directive_code(&Directive::Goto(3, 17)), "\x1b[17;3H");
    assert_eq!(directive_code(&Directive::Bold), "\x1b[1m");
    assert_eq!(directive_code(&Directive::StyleReset), "\x1b[m");
    assert_eq!(directive_code(&Directive::Fg(Rgb(0, 128, 255))), "\x1b[38;2;0;128;255m");
    assert_eq!(directive_code(&Directive::FgReset), "\x1b[39m");
    assert_eq!(directive_code(&Directive::Text("hi".to_string())), "hi");
}

#[test]
fn encode_concatenates() {
    let ds = vec![Directive::Goto(1, 2), Directive::Text("x".to_string()), Directive::FgReset];
    assert_eq!(encode(&ds), "\x1b[2;1Hx\x1b[39m");
    assert_eq!(encode(&Vec::new()), "");
}

#[test]
fn top_right_text() {
    assert_eq!(render_text_top_right("abc", 80, Rgb(1, 2, 3)), "\x1b[1;77H\x1b[38;2;1;2;3mabc\x1b[39m");
}

#[test]
fn top_right_text_too_wide_clamps() {
    assert_eq!(render_text_top_right("abcdef", 5, Rgb(0, 0, 0)), "\x1b[1;1H\x1b[38;2;0;0;0mabcdef\x1b[39m");
    assert_eq!(render_text_top_right("abcde", 5, Rgb(0, 0, 0)), "\x1b[1;1H\x1b[38;2;0;0;0mabcde\x1b[39m");
}

#[test]
fn whole_frame() {
    let p = Presentation {
        slides: vec!["# Hi".to_string()],
        current_slide: 0,
        title: Some("T".to_string()),
        theme: theme(),
    };
    let s = render_slide(&p, 4, 3).unwrap();
    let expected = [
        "\x1b[2J\x1b[1;1H",
        "\x1b[1;1H\x1b[1m\x1b[38;2;7;8;9m T\x1b[39m\x1b[m",
        "\x1b[1m\x1b[4;1H\x1b[38;2;1;2;3mHi\x1b[39m\x1b[m\n",
        "\x1b[2;1H\x1b[1m\x1b[38;2;1;2;3m1/1 slides\x1b[39m\x1b[m",
        "\x1b[3;1H\x1b[38;2;1;2;3m\u{eacc}\u{eacc}\u{eacc}\u{eacc}\x1b[39m\x1b[4;1H",
    ]
    .concat();
    assert_eq!(s, expected);
}

#[test]
fn render_slide_errors() {
    let p = Presentation { slides: vec![], current_slide: 0, title: None, theme: theme() };
    assert_eq!(render_slide(&p, 80, 24), Err(RenderError::NoSlides));
}
