use nu_ansi_term::{Color, Style};
use oxcraft::cli::LogLevel;
use oxcraft::logging::{badge_color, level_str, paint_target, BadgeColor, CraftLayer, CraftVisitor};

#[test]
fn an_event_is_laid_out_in_one_line_and_its_fields_below() {
    let mut v = CraftVisitor::new();
    v.record("message", "hi".to_string());
    v.record("x", "1".to_string());
    v.record("y", "2".to_string());
    let line = CraftLayer.event_line(LogLevel::Warn, "a::b", &v);
    let level = Color::Black.on(Color::Yellow).bold().paint(" WARN ");
    let target = format!("{}{}{}", Color::Cyan.paint("a"), Color::LightRed.paint("::"), Color::Cyan.paint("b"));
    let pad = "     ";
    let fields = format!(
        "\n{pad}{} = 1\n{pad}{} = 2",
        Style::default().dimmed().italic().paint("x"),
        Style::default().dimmed().italic().paint("y")
    );
    assert_eq!(line, format!("{level} {target} hi {fields}"));
}

#[test]
fn an_event_without_message_or_fields() {
    let v = CraftVisitor::new();
    let line = CraftLayer.event_line(LogLevel::Trace, "t", &v);
    let level = Color::Black.on(Color::Purple).bold().paint(" TRACE ");
    assert_eq!(line, format!("{level} {} ", Color::Cyan.paint("t")));
}

#[test]
fn levels_have_their_colors_and_names() {
    assert_eq!(badge_color(LogLevel::Info), BadgeColor::Green);
    assert_eq!(badge_color(LogLevel::Error), BadgeColor::Red);
    assert_eq!(badge_color(LogLevel::Debug), BadgeColor::Blue);
    assert_eq!(level_str(LogLevel::Info), "INFO");
    assert_eq!(paint_target("m"), Color::Cyan.paint("m").to_string());
}

#[test]
fn painted_texts_are_the_escape_codes() {
    let mut v = CraftVisitor::new();
    v.record("k", "v".to_string());
    let line = CraftLayer.event_line(LogLevel::Info, "a::b", &v);
    assert_eq!(
        line,
        "\x1b[1;42;30m INFO \x1b[0m \x1b[36ma\x1b[0m\x1b[91m::\x1b[0m\x1b[36mb\x1b[0m \n     \x1b[2;3mk\x1b[0m = v"
    );
    assert_eq!(paint_target("m"), "\x1b[36mm\x1b[0m");
}
