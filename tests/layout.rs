use slide_render::layout::{
    center_padding, footer, progress_filled, slide_directives, Directive, Presentation,
    RenderError,
};
use slide_render::theme::{Rgb, Theme};

fn theme() -> Theme {
    Theme {
        green: Rgb(10, 200, 10),
        teal: Rgb(0, 128, 128),
        red: Rgb(200, 0, 0),
        peach: Rgb(250, 180, 135),
    }
}

fn deck(slides: &[&str], current: usize, title: Option<&str>) -> Presentation {
    Presentation {
        slides: slides.iter().map(|s| s.to_string()).collect(),
        current_slide: current,
        title: title.map(|t| t.to_string()),
        theme: theme(),
    }
}

fn text_of(d: &Directive) -> &str {
    match d {
        Directive::Text(s) => s.as_str(),
        other => panic!("expected text, got {:?}", other),
    }
}

#[test]
fn title_centered_on_eighty_columns() {
    let p = deck(&["body"], 0, Some("Demo"));
    let ds = slide_directives(&p, 80, 24).unwrap();
    assert!(matches!(ds[0], Directive::ClearAll));
    assert!(matches!(ds[1], Directive::Goto(1, 1)));
    assert!(matches!(ds[2], Directive::Goto(1, 1)));
    assert!(matches!(ds[3], Directive::Bold));
    assert!(matches!(ds[4], Directive::Fg(Rgb(200, 0, 0))));
    assert_eq!(text_of(&ds[5]), " ".repeat(38));
    assert_eq!(text_of(&ds[6]), "Demo");
    assert_eq!(center_padding(4, 80), 38);
}

#[test]
fn centering_edge_cases() {
    assert_eq!(center_padding(0, 80), 40);
    assert_eq!(center_padding(80, 80), 0);
    assert_eq!(center_padding(5, 80), 37);
    assert_eq!(center_padding(100, 80), 0);
}

#[test]
fn progress_three_quarters() {
    assert_eq!(progress_filled(2, 4, 100), 75);
    let p = deck(&["a", "b", "c", "d"], 2, None);
    let ds = slide_directives(&p, 100, 30).unwrap();
    let n = ds.len();
    assert!(matches!(ds[n - 6], Directive::Goto(1, 30)));
    assert!(matches!(ds[n - 5], Directive::Fg(Rgb(10, 200, 10))));
    assert_eq!(text_of(&ds[n - 4]).chars().count(), 75);
    assert!(text_of(&ds[n - 4]).chars().all(|c| c == '\u{eacc}'));
    assert!(matches!(ds[n - 3], Directive::FgReset));
    assert_eq!(text_of(&ds[n - 2]), " ".repeat(25));
    assert!(matches!(ds[n - 1], Directive::Goto(1, 31)));
}

#[test]
fn progress_monotone_and_full_on_last() {
    let mut prev = 0;
    for i in 0..7 {
        let f = progress_filled(i, 7, 80);
        assert!(f >= prev);
        prev = f;
    }
    assert_eq!(progress_filled(6, 7, 80), 80);
    assert_eq!(progress_filled(0, 1000, 80), 0);
    assert_eq!(progress_filled(0, 3, 80), 26);
}

#[test]
fn empty_bar_still_drawn() {
    let slides: Vec<&str> = vec!["x"; 200];
    let p = deck(&slides, 0, None);
    let ds = slide_directives(&p, 80, 24).unwrap();
    let n = ds.len();
    assert!(matches!(ds[n - 6], Directive::Goto(1, 24)));
    assert_eq!(text_of(&ds[n - 4]), "");
    assert_eq!(text_of(&ds[n - 2]), " ".repeat(80));
}

#[test]
fn leading_blank_lines_skipped() {
    let p = deck(&["\n\n# Heading\nBody"], 0, None);
    let ds = slide_directives(&p, 80, 24).unwrap();
    // clear, home, then the first body line
    assert!(matches!(ds[2], Directive::Bold));
    assert!(matches!(ds[3], Directive::Goto(1, 4)));
    assert!(matches!(ds[4], Directive::Fg(Rgb(10, 200, 10))));
    assert_eq!(text_of(&ds[5]), "Heading");
    assert!(matches!(ds[9], Directive::Bold));
    assert!(matches!(ds[10], Directive::Goto(1, 5)));
    assert!(matches!(ds[11], Directive::FgReset));
    assert_eq!(text_of(&ds[12]), "Body");
    // then the footer
    assert!(matches!(ds[16], Directive::Goto(1, 23)));
}

#[test]
fn blank_lines_inside_slide_kept() {
    let p = deck(&[" \t\nA\n\nB"], 0, None);
    let ds = slide_directives(&p, 80, 24).unwrap();
    assert!(matches!(ds[3], Directive::Goto(1, 4)));
    assert_eq!(text_of(&ds[5]), "A");
    assert!(matches!(ds[10], Directive::Goto(1, 5)));
    assert_eq!(text_of(&ds[12]), "");
    assert!(matches!(ds[17], Directive::Goto(1, 6)));
    assert_eq!(text_of(&ds[19]), "B");
}

#[test]
fn all_blank_slide_has_no_body() {
    let p = deck(&["\n  \n\t"], 0, None);
    let ds = slide_directives(&p, 80, 24).unwrap();
    // clear, home, footer (7), bar (6)
    assert_eq!(ds.len(), 2 + 7 + 6);
}

#[test]
fn footer_text_and_row() {
    assert_eq!(footer(0, 4), "1/4 slides");
    assert_eq!(footer(9, 12), "10/12 slides");
    let p = deck(&["a", "b"], 1, None);
    let ds = slide_directives(&p, 40, 10).unwrap();
    let n = ds.len();
    assert!(matches!(ds[n - 13], Directive::Goto(1, 9)));
    assert!(matches!(ds[n - 11], Directive::Fg(Rgb(10, 200, 10))));
    assert_eq!(text_of(&ds[n - 10]), " ".repeat(15));
    assert_eq!(text_of(&ds[n - 9]), "2/2 slides");
}

#[test]
fn five_hash_line_rendered_as_body() {
    let p = deck(&["##### deep"], 0, None);
    let ds = slide_directives(&p, 80, 24).unwrap();
    assert!(matches!(ds[4], Directive::FgReset));
    assert_eq!(text_of(&ds[5]), "##### deep");
}

#[test]
fn heading_levels_use_theme_slots() {
    let p = deck(&["## two\n### three\n#### four"], 0, None);
    let ds = slide_directives(&p, 80, 24).unwrap();
    assert!(matches!(ds[4], Directive::Fg(Rgb(0, 128, 128))));
    assert!(matches!(ds[11], Directive::Fg(Rgb(200, 0, 0))));
    assert!(matches!(ds[18], Directive::Fg(Rgb(250, 180, 135))));
}

#[test]
fn layout_errors() {
    let empty = deck(&[], 0, None);
    assert_eq!(slide_directives(&empty, 80, 24).unwrap_err(), RenderError::NoSlides);
    let out = deck(&["a"], 1, None);
    assert_eq!(slide_directives(&out, 80, 24).unwrap_err(), RenderError::SlideOutOfRange);
    let ok = deck(&["a"], 0, None);
    assert_eq!(slide_directives(&ok, 80, 1).unwrap_err(), RenderError::TerminalTooSmall);
    assert!(slide_directives(&ok, 80, 2).is_ok());
}

#[test]
fn long_title_overflows_without_padding() {
    let p = deck(&["a"], 0, Some("0123456789"));
    let ds = slide_directives(&p, 4, 24).unwrap();
    assert_eq!(text_of(&ds[5]), "");
    assert_eq!(text_of(&ds[6]), "0123456789");
}
