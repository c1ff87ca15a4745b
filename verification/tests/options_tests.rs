use glas::options::cli::{Cli, ColorWhen, SortField};
use glas::options::config::{parse_usize, DirOptions, FlattenDepth, RenderOptions};
use glas::options::layout::{resolve_layout_mode, OutputLayout};
use glas::{color_enabled, targets_of};

fn parse_cli_empty() -> Cli {
    Cli::default()
}

#[test]
fn lib_default_layout_is_grid_on_tty() {
    let cli = parse_cli_empty();
    assert_eq!(resolve_layout_mode(&cli, true), OutputLayout::Grid);
}

#[test]
fn lib_default_layout_falls_back_to_oneline_when_not_tty() {
    let cli = parse_cli_empty();
    assert_eq!(resolve_layout_mode(&cli, false), OutputLayout::OneLine);
}

#[test]
fn layout_default_layout_is_grid_on_tty() {
    let cli = parse_cli_empty();
    assert_eq!(resolve_layout_mode(&cli, true), OutputLayout::Grid);
}

#[test]
fn layout_default_layout_falls_back_to_oneline_when_not_tty() {
    let cli = parse_cli_empty();
    assert_eq!(resolve_layout_mode(&cli, false), OutputLayout::OneLine);
}

#[test]
fn flatten_default_is_zero() {
    let cli = parse_cli_empty();
    assert_eq!(cli.flatten, "0");
}

#[test]
fn layout_priority_order() {
    let mut cli = parse_cli_empty();
    cli.null = true;
    assert_eq!(resolve_layout_mode(&cli, true), OutputLayout::OneLine);
    cli.format = Some("%(path)".to_string());
    assert_eq!(resolve_layout_mode(&cli, true), OutputLayout::Custom);
    cli.long = true;
    assert_eq!(resolve_layout_mode(&cli, false), OutputLayout::Long);
}

#[test]
fn flatten_values() {
    assert_eq!(FlattenDepth::from_str("all"), FlattenDepth::All);
    assert_eq!(FlattenDepth::from_str("ALL"), FlattenDepth::All);
    assert_eq!(FlattenDepth::from_str("aLl"), FlattenDepth::All);
    assert_eq!(FlattenDepth::from_str("0"), FlattenDepth::Depth(0));
    assert_eq!(FlattenDepth::from_str("3"), FlattenDepth::Depth(3));
    assert_eq!(FlattenDepth::from_str("+12"), FlattenDepth::Depth(12));
    assert_eq!(FlattenDepth::from_str("-1"), FlattenDepth::Depth(0));
    assert_eq!(FlattenDepth::from_str("x"), FlattenDepth::Depth(0));
    assert_eq!(FlattenDepth::from_str(""), FlattenDepth::Depth(0));
    assert_eq!(FlattenDepth::from_str("alll"), FlattenDepth::Depth(0));
}

#[test]
fn parse_usize_matches_std() {
    let samples = [
        "", "+", "0", "007", "+5", "-5", "12a", "18446744073709551615", "18446744073709551616",
        "99999999999999999999999", " 1", "1 ", "٣",
    ];
    for s in samples {
        assert_eq!(parse_usize(s), s.parse::<usize>().ok(), "input {s:?}");
    }
}

#[test]
fn dir_options_from_cli() {
    let mut cli = parse_cli_empty();
    let o = DirOptions::from_cli(&cli);
    assert!(!o.git_select_mode);
    assert_eq!(o.flatten, FlattenDepth::Depth(0));
    cli.others = true;
    cli.flatten = "all".to_string();
    cli.long = true;
    let o = DirOptions::from_cli(&cli);
    assert!(o.git_select_mode && o.others && o.long);
    assert_eq!(o.flatten, FlattenDepth::All);
}

#[test]
fn render_options_from_cli() {
    let mut cli = parse_cli_empty();
    cli.sort = Some(SortField::Size);
    cli.format = Some("%(size)".to_string());
    cli.header = true;
    let o = RenderOptions::from_cli(&cli);
    assert_eq!(o.sort, Some(SortField::Size));
    assert_eq!(o.format.as_deref(), Some("%(size)"));
    assert!(o.header && !o.long && !o.stage);
}

#[test]
fn color_choice() {
    assert!(color_enabled(ColorWhen::Always, false));
    assert!(!color_enabled(ColorWhen::Never, true));
    assert!(color_enabled(ColorWhen::Auto, true));
    assert!(!color_enabled(ColorWhen::Auto, false));
}

#[test]
fn default_target_is_current_directory() {
    assert_eq!(targets_of(&Vec::new()), vec![".".to_string()]);
    let files = vec!["a".to_string(), "b".to_string()];
    assert_eq!(targets_of(&files), files);
}
