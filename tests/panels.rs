use nekifoch::command::Command;
use nekifoch::error::PluginError;
use nekifoch::plugin::App;
use nekifoch::setup::{BorderStyle, Config};
use nekifoch::window::{Effect, FloatWindow, WindowType};

fn config() -> Config {
    Config::from_dict(None, None)
}

fn conf(text: &str) -> Result<String, PluginError> {
    Ok(text.to_string())
}

#[test]
fn menu_then_close_releases_panel() {
    let mut app = App::new(config());
    let opened = app.handle_command(Command::MainMenu, &conf(""));
    assert_eq!(opened.len(), 1);
    match &opened[0] {
        Effect::Open { config, border, .. } => {
            assert_eq!(config.window_type, WindowType::MainMenu);
            assert_eq!(config.content.as_deref(), Some("Check current font\nSet font family\nSet font size\nShow installed fonts"));
            assert_eq!(config.width, 24);
            assert_eq!(*border, BorderStyle::Single);
        }
        _ => panic!("expected Open"),
    }
    assert!(app.float_window.window.is_some());
    let closed = app.handle_command(Command::Close, &conf(""));
    assert!(matches!(closed.as_slice(), [Effect::Close]));
    assert!(app.float_window.window.is_none());
}

#[test]
fn already_open_and_already_closed() {
    let mut w = FloatWindow::new();
    let cfg = config();
    assert!(matches!(w.close_win().as_slice(), [Effect::Notice(_)]));
    w.menu_win(&cfg);
    assert!(matches!(w.menu_win(&cfg).as_slice(), [Effect::Notice(_)]));
    assert_eq!(w.window.as_ref().unwrap().kind, WindowType::MainMenu);
}

#[test]
fn size_control_increment() {
    let mut app = App::new(config());
    let text = "font_size 12.0\n";
    let opened = app.handle_command(Command::SetSize(None), &conf(text));
    assert!(matches!(opened.as_slice(), [Effect::Open { .. }]));
    assert_eq!(app.float_window.window.as_ref().unwrap().kind, WindowType::FontSizeControl);
    let effects = app.handle_command(Command::SizeUp, &conf(text));
    match effects.as_slice() {
        [Effect::Write(new_text), Effect::SetLines(lines)] => {
            assert_eq!(new_text, "font_size 12.5\n");
            assert_eq!(lines[1], "Current size: [ 12.5 ]");
        }
        _ => panic!("expected Write then SetLines"),
    }
    let panel = app.float_window.window.as_ref().unwrap();
    assert_eq!(panel.kind, WindowType::FontSizeControl);
    assert_eq!(panel.lines[1], "Current size: [ 12.5 ]");
}

#[test]
fn size_control_refuses_unparseable_size() {
    let mut app = App::new(config());
    let effects = app.handle_command(Command::SetSize(None), &conf("font_size big\n"));
    match effects.as_slice() {
        [Effect::Error(m)] => assert_eq!(m, "Invalid argument: current font size in the configuration"),
        _ => panic!("expected an error"),
    }
    assert!(app.float_window.window.is_none());
}

#[test]
fn size_down_and_write_size() {
    let mut app = App::new(config());
    let effects = app.size_down(&conf("font_size 12\n"));
    assert!(matches!(effects.as_slice(), [Effect::Write(t), Effect::Error(_)] if t == "font_size 11.5\n"));
    let chars: Vec<char> = "16".chars().collect();
    let z = nekifoch::size::FontSize::parse(&chars);
    let set = app.handle_command(Command::SetSize(z), &conf("font_size 12\n"));
    assert!(matches!(set.as_slice(), [Effect::Write(t), Effect::Notice(_)] if t == "font_size 16\n"));
}

#[test]
fn file_errors_are_reported() {
    let mut app = App::new(config());
    let missing: Result<String, PluginError> = Err(PluginError::NotFound("kitty.conf".to_string()));
    let effects = app.handle_command(Command::Check, &missing);
    match effects.as_slice() {
        [Effect::Error(m)] => assert_eq!(m, "File not found: kitty.conf"),
        _ => panic!("expected an error"),
    }
    let io: Result<String, PluginError> = Err(PluginError::Io("denied".to_string()));
    assert!(matches!(app.handle_command(Command::SizeUp, &io).as_slice(), [Effect::Error(_)]));
}

#[test]
fn check_and_info_panel() {
    let mut app = App::new(config());
    let text = "font_family Arial\nfont_size 11\n";
    match app.handle_command(Command::Check, &conf(text)).as_slice() {
        [Effect::Notice(n)] => assert_eq!(n, "Font family: Arial\nFont size: 11"),
        _ => panic!("expected a notice"),
    }
    app.handle_command(Command::FCheck, &conf(text));
    let panel = app.float_window.window.as_ref().unwrap();
    assert_eq!(panel.kind, WindowType::FontInfo);
    assert_eq!(panel.lines, vec!["Family: Arial".to_string(), "Size:   11".to_string()]);
}

#[test]
fn family_picker_and_direct_set() {
    let mut app = App::new(config());
    app.load_fonts("Fira Code\nArial\n", r#"{"family_map": {"a": [{"family": "Arial"}], "f": [{"family": "FiraCode"}]}}"#);
    assert!(!app.needs_fonts());
    let text = "font_family Fira Code\n";
    match app.handle_command(Command::SetFont(None), &conf(text)).as_slice() {
        [Effect::Open { row, .. }] => assert_eq!(*row, 2),
        _ => panic!("expected Open"),
    }
    let panel = app.float_window.window.as_ref().unwrap();
    assert_eq!(panel.lines, vec!["Arial".to_string(), "Fira Code".to_string()]);
    app.handle_command(Command::Close, &conf(text));
    let set = app.handle_command(Command::SetFont(Some("Arial".to_string())), &conf(text));
    assert!(matches!(set.as_slice(), [Effect::Write(t), Effect::Notice(_)] if t == "font_family Arial\n"));
    let refused = app.handle_command(Command::SetFont(Some("Helvetica".to_string())), &conf(text));
    assert!(matches!(refused.as_slice(), [Effect::Error(_)]));
}

#[test]
fn font_list_notice_and_panel() {
    let mut app = App::new(config());
    app.load_fonts("Fira Code\nArial\n", r#"{"family_map": {"a": [{"family": "Arial"}], "f": [{"family": "Fira Code"}]}}"#);
    match app.handle_command(Command::List, &conf("")).as_slice() {
        [Effect::Notice(n)] => assert_eq!(n, "Available fonts:  - Arial  - Fira Code"),
        _ => panic!("expected a notice"),
    }
    app.handle_command(Command::FList, &conf(""));
    let panel = app.float_window.window.as_ref().unwrap();
    assert_eq!(panel.kind, WindowType::FontList);
    assert_eq!(panel.lines, vec!["Arial      Fira Code".to_string()]);
}

#[test]
fn commands_from_words() {
    assert!(matches!(Command::from_str("", None), Some(Command::MainMenu)));
    assert!(matches!(Command::from_str("size_up", None), Some(Command::SizeUp)));
    assert!(matches!(Command::from_str("float_list", None), Some(Command::FList)));
    assert!(matches!(Command::from_str("set_font", Some("FiraCode")), Some(Command::SetFont(Some(ref f))) if f == "FiraCode"));
    assert!(matches!(Command::from_str("set_size", Some("13.5")), Some(Command::SetSize(Some(z))) if z.millis == 13500));
    assert!(matches!(Command::from_str("set_size", Some("big")), Some(Command::InvalidSize(ref a)) if a == "big"));
    assert!(matches!(Command::from_str("set_size", None), Some(Command::SetSize(None))));
    assert!(Command::from_str("bogus", None).is_none());
}

#[test]
fn setup_defaults_and_borders() {
    let c = Config::from_dict(None, None);
    assert_eq!(c.border, "single");
    assert_eq!(c.kitty_conf_path, "~/.config/kitty/kitty.conf");
    assert_eq!(c.border_style(), BorderStyle::Single);
    let d = Config::from_dict(Some("double".to_string()), Some("/etc/kitty.conf".to_string()));
    assert_eq!(d.border_style(), BorderStyle::Double);
    assert_eq!(d.kitty_conf_path, "/etc/kitty.conf");
    assert_eq!(Config::from_dict(Some("odd".to_string()), None).border_style(), BorderStyle::Plain);
    assert_eq!(Config::expand_tilde("~/.config/kitty.conf", "/home/u"), "/home/u/.config/kitty.conf");
    assert_eq!(Config::expand_tilde("/etc/kitty.conf", "/home/u"), "/etc/kitty.conf");
}

#[test]
fn buffer_lines() {
    let mut buf = vec!["old".to_string()];
    nekifoch::window::BufferManager::set_buffer_content(&mut buf, "a\nb");
    assert_eq!(buf, vec!["a".to_string(), "b".to_string()]);
}

#[test]
fn error_messages() {
    assert_eq!(PluginError::FontNotInstalled("X".to_string()).message(), "Font not installed: X");
    assert_eq!(PluginError::InvalidArgument("s".to_string()).message(), "Invalid argument: s");
    assert_eq!(PluginError::Api("w".to_string()).message(), "Neovim API error: w");
    assert_eq!(PluginError::Custom("c".to_string()).message(), "Custom error: c");
}

#[test]
fn invalid_size_argument_is_reported() {
    let mut app = App::new(config());
    match app.handle_command(Command::InvalidSize("big".to_string()), &conf("font_size 12\n")).as_slice() {
        [Effect::Error(m)] => assert_eq!(m, "Invalid argument: big"),
        _ => panic!("expected an error"),
    }
    assert!(app.float_window.window.is_none());
}

#[test]
fn failed_panel_creation_is_withdrawn() {
    let mut w = FloatWindow::new();
    w.menu_win(&config());
    match w.open_failed("no room").as_slice() {
        [Effect::Error(m)] => assert_eq!(m, "Neovim API error: no room"),
        _ => panic!("expected an error"),
    }
    assert!(w.window.is_none());
}

#[test]
fn confirmation_notices() {
    let mut app = App::new(config());
    let chars: Vec<char> = "13.5".chars().collect();
    let z = nekifoch::size::FontSize::parse(&chars);
    match app.handle_command(Command::SetSize(z), &conf("font_size 12\n")).as_slice() {
        [Effect::Write(t), Effect::Notice(n)] => {
            assert_eq!(t, "font_size 13.5\n");
            assert_eq!(n, "Font size set to 13.5");
        }
        _ => panic!("expected Write then Notice"),
    }
}

#[test]
fn size_control_panel_shape() {
    let mut w = FloatWindow::new();
    let chars: Vec<char> = "12".chars().collect();
    let z = nekifoch::size::FontSize::parse(&chars).unwrap();
    match w.f_size_win(&config(), " Change font size ", z).as_slice() {
        [Effect::Open { config, row, col, .. }] => {
            assert_eq!((config.height, config.width, *row, *col), (3, 25, 2, 16));
            assert_eq!(config.content.as_deref(), Some("\t\t\t\t\nCurrent size: [ 12 ]\n\t\t\t\t"));
        }
        _ => panic!("expected Open"),
    }
}

#[test]
fn centering() {
    assert_eq!(nekifoch::window::centered_position(24, 80, 4, 24), (10, 28));
    assert_eq!(nekifoch::window::centered_position(2, 10, 4, 24), (0, 0));
}

#[test]
fn size_down_below_half_a_point() {
    let mut app = App::new(config());
    app.handle_command(Command::SetSize(None), &conf("font_size 0.3\n"));
    match app.handle_command(Command::SizeDown, &conf("font_size 0.3\n")).as_slice() {
        [Effect::Write(t), Effect::SetLines(lines)] => {
            assert_eq!(t, "font_size -0.2\n");
            assert_eq!(lines[1], "Current size: [ -0.2 ]");
        }
        _ => panic!("expected Write then SetLines"),
    }
}
