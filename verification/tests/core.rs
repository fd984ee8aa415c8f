use tmux_fzy::cli::{Cli, Commands};
use tmux_fzy::config::{
    parse_colors, parse_path_list, int_to_ansi_colors, AnsiColor, Colors, PathList,
};
use tmux_fzy::input::{App, InputMode, KeyInput, StepResult};
use tmux_fzy::match_engine::match_query;
use tmux_fzy::selection::{CatalogEntry, SelectionState};
use tmux_fzy::selection::{match_flags, PAGE_SIZE};
use tmux_fzy::session::session_name_of;
use tmux_fzy::text::{format_usize, parse_usize, split_by, split_lines, str_eq, trim};
use tmux_fzy::tmux::{
    action_commands, attach, has_session, kill_session, list_sessions, new_session,
    new_session_detach, switch_client, CommandBuilder,
};
use tmux_fzy::{
    error_chain_fmt, resolve_action, start_tmux, switch_sessions, Error, SessionAction,
    SessionFacts,
};

fn catalog(entries: &[(&str, &str)]) -> Vec<CatalogEntry> {
    entries
        .iter()
        .map(|(label, full)| CatalogEntry {
            label: label.to_string(),
            full_path: full.to_string(),
        })
        .collect()
}

// ---- match engine -------------------------------------------------------

#[test]
fn match_subsequence_returns_some_with_valid_indices() {
    let r = match_query("src/main.rs", "smn").expect("ordered subsequence must match");
    assert_eq!(r.indices.len(), 3);
    let label: Vec<char> = "src/main.rs".chars().collect();
    let query: Vec<char> = "smn".chars().collect();
    let mut prev = None;
    for (qi, &li) in r.indices.iter().enumerate() {
        assert!(li < label.len());
        assert_eq!(label[li], query[qi]);
        if let Some(p) = prev {
            assert!(p < li);
        }
        prev = Some(li);
    }
}

#[test]
fn match_non_subsequence_returns_none() {
    assert!(match_query("abc", "acb").is_none());
    assert!(match_query("abc", "abcd").is_none());
    assert!(match_query("", "a").is_none());
}

#[test]
fn match_is_case_sensitive() {
    assert!(match_query("Project", "Pro").is_some());
    assert!(match_query("project", "Pro").is_none());
}

#[test]
fn match_empty_query_matches_everything() {
    let r = match_query("anything", "").expect("empty query always matches");
    assert!(r.indices.is_empty());
    let r2 = match_query("", "").expect("empty query matches the empty label");
    assert!(r2.indices.is_empty());
}

#[test]
fn match_alignment_realizes_the_match() {
    let r = match_query("abab", "ab").unwrap();
    assert_eq!(r.indices.len(), 2);
    let label: Vec<char> = "abab".chars().collect();
    assert!(r.indices[0] < r.indices[1]);
    assert_eq!(label[r.indices[0]], 'a');
    assert_eq!(label[r.indices[1]], 'b');
}

#[test]
fn ranking_prefers_consecutive_match() {
    // the outside scorer must rank the compact match above the scattered one;
    // this fails if the score wrapper returned anything constant
    let mut list = SelectionState::new(catalog(&[
        ("p-r-o-j-x", "/a/scattered"),
        ("proj", "/a/compact"),
    ]));
    list.apply_query("proj");
    assert_eq!(list.ranked.len(), 2);
    assert_eq!(list.ranked[0].fullpath, "/a/compact");
    assert_eq!(list.ranked[1].fullpath, "/a/scattered");
    assert!(list.ranked[0].score > list.ranked[1].score);
}

// ---- selection list ------------------------------------------------------

#[test]
fn scenario_two_projects_exact_query() {
    let mut list = SelectionState::new(catalog(&[
        ("proj1", "/home/a/proj1"),
        ("proj2", "/home/a/proj2"),
    ]));
    list.apply_query("proj1");
    assert_eq!(list.ranked.len(), 1);
    assert_eq!(list.ranked[0].fullpath, "/home/a/proj1");
    assert_eq!(list.ranked[0].indices, vec![0, 1, 2, 3, 4]);
    assert_eq!(list.cursor, Some(0));
}

#[test]
fn apply_query_empty_result_clears_cursor() {
    let mut list = SelectionState::new(catalog(&[("alpha", "/a"), ("beta", "/b")]));
    list.apply_query("zzz");
    assert_eq!(list.ranked.len(), 0);
    assert_eq!(list.cursor, None);
}

#[test]
fn undo_restores_previous_ranked_set_and_cursor() {
    let mut list = SelectionState::new(catalog(&[("alpha", "/a"), ("beta", "/b")]));
    list.apply_query("a");
    let before: Vec<String> = list.ranked.iter().map(|i| i.fullpath.clone()).collect();
    let cursor_before = list.cursor;
    list.apply_query("al");
    assert_eq!(list.ranked.len(), 1);
    list.undo_last_edit();
    let after: Vec<String> = list.ranked.iter().map(|i| i.fullpath.clone()).collect();
    assert_eq!(before, after);
    assert_eq!(cursor_before, list.cursor);
}

#[test]
fn undo_puts_the_cursor_on_the_top_row() {
    // the restored set comes back verbatim, but the cursor goes to the top
    // row, wherever it stood before the edit
    let mut list = SelectionState::new(catalog(&[("alpha", "/a"), ("ana", "/b")]));
    list.apply_query("a");
    list.next();
    assert_eq!(list.cursor, Some(1));
    list.apply_query("al");
    list.undo_last_edit();
    assert_eq!(list.ranked.len(), 2);
    assert_eq!(list.cursor, Some(0));
}

#[test]
fn undo_with_empty_history_is_a_no_op() {
    let mut list = SelectionState::new(catalog(&[("alpha", "/a")]));
    list.undo_last_edit();
    assert_eq!(list.ranked.len(), 1);
    assert_eq!(list.cursor, Some(0));
}

#[test]
fn cursor_stays_in_bounds_under_any_movement() {
    let mut list = SelectionState::new(catalog(&[
        ("a1", "/1"),
        ("a2", "/2"),
        ("a3", "/3"),
    ]));
    assert_eq!(list.cursor, Some(0));
    list.prev();
    assert_eq!(list.cursor, Some(0));
    list.next();
    assert_eq!(list.cursor, Some(1));
    list.next();
    list.next();
    assert_eq!(list.cursor, Some(2));
    list.scroll_next();
    assert_eq!(list.cursor, Some(2));
    list.scroll_prev();
    assert_eq!(list.cursor, Some(0));
}

#[test]
fn cursor_is_none_only_while_list_is_empty() {
    let mut list = SelectionState::new(Vec::new());
    assert_eq!(list.cursor, None);
    list.next();
    list.scroll_next();
    list.prev();
    list.scroll_prev();
    assert_eq!(list.cursor, None);
}

#[test]
fn page_scroll_moves_by_page_and_clamps() {
    let entries: Vec<(String, String)> = (0..12)
        .map(|i| (format!("dir{}", i), format!("/d/{}", i)))
        .collect();
    let refs: Vec<(&str, &str)> = entries
        .iter()
        .map(|(a, b)| (a.as_str(), b.as_str()))
        .collect();
    let mut list = SelectionState::new(catalog(&refs));
    list.scroll_next();
    assert_eq!(list.cursor, Some(PAGE_SIZE));
    list.scroll_next();
    assert_eq!(list.cursor, Some(2 * PAGE_SIZE));
    list.scroll_next();
    assert_eq!(list.cursor, Some(11));
    list.scroll_prev();
    assert_eq!(list.cursor, Some(11 - PAGE_SIZE));
}

#[test]
fn visible_window_clips_to_list() {
    let entries: Vec<(String, String)> = (0..10)
        .map(|i| (format!("dir{}", i), format!("/d/{}", i)))
        .collect();
    let refs: Vec<(&str, &str)> = entries
        .iter()
        .map(|(a, b)| (a.as_str(), b.as_str()))
        .collect();
    let mut list = SelectionState::new(catalog(&refs));
    assert_eq!(list.visible_window(3), (0, 3));
    for _ in 0..6 {
        list.next();
    }
    assert_eq!(list.visible_window(3), (3, 9));
    assert_eq!(list.visible_window(100), (0, 10));
}

#[test]
fn match_flags_mark_exactly_the_matched_positions() {
    let flags = match_flags(5, &vec![0, 2, 4]);
    assert_eq!(flags, vec![true, false, true, false, true]);
    let none = match_flags(3, &vec![7]);
    assert_eq!(none, vec![false, false, false]);
}

#[test]
fn ranked_set_is_sorted_descending() {
    let mut list = SelectionState::new(catalog(&[
        ("x/y/proj", "/1"),
        ("proj", "/2"),
        ("p/r/o/j", "/3"),
    ]));
    list.apply_query("proj");
    assert_eq!(list.ranked.len(), 3);
    for w in list.ranked.windows(2) {
        assert!(w[0].score >= w[1].score);
    }
}

#[test]
fn equal_scores_keep_both_entries() {
    let mut list = SelectionState::new(catalog(&[("proj", "/home/a/proj"), ("proj", "/home/b/proj")]));
    list.apply_query("proj");
    assert_eq!(list.ranked.len(), 2);
    assert_eq!(list.ranked[0].score, list.ranked[1].score);
    let mut fulls: Vec<&str> = list.ranked.iter().map(|i| i.fullpath.as_str()).collect();
    fulls.sort();
    assert_eq!(fulls, vec!["/home/a/proj", "/home/b/proj"]);
}

// ---- input controller ----------------------------------------------------

#[test]
fn typing_and_backspace_drive_query_and_history() {
    let list = SelectionState::new(catalog(&[("alpha", "/a"), ("albatross", "/b")]));
    let mut app = App::new(list);
    assert!(app.running);
    assert_eq!(app.total_items, 2);
    let r = app.handle_key(KeyInput::Insert('a'));
    assert!(matches!(r, StepResult::Continue));
    assert_eq!(app.input, "a");
    assert_eq!(app.cursor_pos, 1);
    assert_eq!(app.list.ranked.len(), 2);
    app.handle_key(KeyInput::Insert('l'));
    app.handle_key(KeyInput::Insert('p'));
    assert_eq!(app.input, "alp");
    assert_eq!(app.list.ranked.len(), 1);
    app.handle_key(KeyInput::Backspace);
    assert_eq!(app.input, "al");
    assert_eq!(app.list.ranked.len(), 2);
}

#[test]
fn confirm_emits_selected_full_path_and_stops() {
    let list = SelectionState::new(catalog(&[("proj1", "/home/a/proj1")]));
    let mut app = App::new(list);
    let r = app.handle_key(KeyInput::Confirm);
    match r {
        StepResult::Confirmed(path) => assert_eq!(path, "/home/a/proj1"),
        _ => panic!("expected a confirmed path"),
    }
    assert!(!app.running);
}

#[test]
fn confirm_on_empty_list_is_a_no_op() {
    let list = SelectionState::new(Vec::new());
    let mut app = App::new(list);
    let r = app.handle_key(KeyInput::Confirm);
    assert!(matches!(r, StepResult::Continue));
    assert!(app.running);
}

#[test]
fn cancel_stops_the_loop() {
    let list = SelectionState::new(catalog(&[("alpha", "/a")]));
    let mut app = App::new(list);
    let r = app.handle_key(KeyInput::Cancel);
    assert!(matches!(r, StepResult::Cancelled));
    assert!(!app.running);
}

#[test]
fn resize_and_unbound_keys_change_nothing() {
    let list = SelectionState::new(catalog(&[("alpha", "/a")]));
    let mut app = App::new(list);
    let r = app.handle_key(KeyInput::Other);
    assert!(matches!(r, StepResult::Continue));
    assert!(app.running);
    assert_eq!(app.input, "");
    assert_eq!(app.list.ranked.len(), 1);
}

#[test]
fn destructive_action_needs_armed_confirm() {
    let list = SelectionState::new(catalog(&[("proj", "/home/a/proj")]));
    let mut app = App::new(list);
    assert_eq!(app.mode, InputMode::Editing);
    // an ordinary confirm never yields the destructive go-ahead
    let r = app.handle_key(KeyInput::Confirm);
    assert!(matches!(r, StepResult::Confirmed(_)));
    app.running = true;
    // armed, any key but confirm backs out
    app.begin_destructive_confirmation();
    assert_eq!(app.mode, InputMode::ConfirmDestructive);
    let r = app.handle_key(KeyInput::Insert('x'));
    assert!(matches!(r, StepResult::Continue));
    assert_eq!(app.mode, InputMode::Editing);
    assert_eq!(app.input, "");
    // armed, confirm goes ahead with the selected entry
    app.begin_destructive_confirmation();
    match app.handle_key(KeyInput::Confirm) {
        StepResult::DestructiveConfirmed(path) => assert_eq!(path, "/home/a/proj"),
        _ => panic!("expected the destructive go-ahead"),
    }
    assert_eq!(app.mode, InputMode::Editing);
}

// ---- session resolution --------------------------------------------------

fn facts(daemon: bool, inside: bool, exists: bool) -> SessionFacts {
    SessionFacts {
        daemon_running: daemon,
        inside_multiplexer: inside,
        target_session_exists: exists,
    }
}

#[test]
fn scenario_no_daemon_outside_creates_foreground() {
    for exists in [false, true] {
        let a = resolve_action(facts(false, false, exists), "s".into(), "/p".into());
        assert!(matches!(a, SessionAction::CreateForeground { .. }));
    }
}

#[test]
fn scenario_inside_without_target_creates_detached_then_switches() {
    let a = resolve_action(facts(true, true, false), "s".into(), "/p".into());
    assert!(matches!(a, SessionAction::CreateDetachedThenSwitch { .. }));
}

#[test]
fn scenario_no_daemon_inside_is_no_op() {
    for exists in [false, true] {
        let a = resolve_action(facts(false, true, exists), "s".into(), "/p".into());
        assert!(matches!(a, SessionAction::NoOp));
    }
}

#[test]
fn resolver_covers_remaining_rows() {
    let a = resolve_action(facts(true, false, false), "s".into(), "/p".into());
    assert!(matches!(a, SessionAction::CreateForeground { .. }));
    let a = resolve_action(facts(true, false, true), "s".into(), "/p".into());
    assert!(matches!(a, SessionAction::AttachForeground { .. }));
    let a = resolve_action(facts(true, true, true), "s".into(), "/p".into());
    assert!(matches!(a, SessionAction::SwitchForeground { .. }));
}

#[test]
fn start_tmux_resolves_name_from_path() {
    let a = start_tmux("/home/a/proj1", facts(true, false, true)).unwrap();
    match a {
        SessionAction::AttachForeground { name } => assert_eq!(name, "proj1"),
        _ => panic!("expected an attach"),
    }
    let a = start_tmux("/home/a/proj1/", facts(false, false, false)).unwrap();
    match a {
        SessionAction::CreateForeground { name, path } => {
            assert_eq!(name, "proj1");
            assert_eq!(path, "/home/a/proj1/");
        }
        _ => panic!("expected a foreground create"),
    }
}

#[test]
fn start_tmux_rejects_unusable_paths() {
    assert_eq!(
        start_tmux("/", facts(true, false, false)).unwrap_err(),
        Error::MissingSessionName
    );
    assert_eq!(
        start_tmux("", facts(true, false, false)).unwrap_err(),
        Error::MissingSessionName
    );
    assert_eq!(
        start_tmux("/a/..", facts(true, false, false)).unwrap_err(),
        Error::MissingSessionName
    );
}

#[test]
fn session_name_takes_last_component() {
    assert_eq!(session_name_of("/home/a/proj"), Some("proj"));
    assert_eq!(session_name_of("proj"), Some("proj"));
    assert_eq!(session_name_of("/home/a/proj///"), Some("proj"));
    assert_eq!(session_name_of("."), None);
    assert_eq!(session_name_of(".."), None);
    assert_eq!(session_name_of(".hidden"), Some(".hidden"));
}

// ---- multiplexer command shapes -------------------------------------------

#[test]
fn command_builder_collects_arguments_in_order() {
    let cb = CommandBuilder::new()
        .arg("one")
        .args(vec!["two", "three"])
        .arg("four");
    assert_eq!(cb.args, vec!["one", "two", "three", "four"]);
}

#[test]
fn command_shapes_are_fixed() {
    assert_eq!(has_session("s").args, vec!["has-session", "-t", "s"]);
    assert_eq!(kill_session("s").args, vec!["kill-session", "-t", "s"]);
    assert_eq!(switch_client("s").args, vec!["switch-client", "-t", "s"]);
    assert_eq!(attach("s").args, vec!["attach", "-t", "s"]);
    assert_eq!(
        new_session("s", "/p").args,
        vec!["new-session", "-s", "s", "-c", "/p"]
    );
    assert_eq!(
        new_session_detach("s", "/p").args,
        vec!["new-session", "-ds", "s", "-c", "/p"]
    );
}

#[test]
fn switch_sessions_picks_the_safe_verb() {
    assert_eq!(
        switch_sessions("s", true).args,
        vec!["switch-client", "-t", "s"]
    );
    assert_eq!(switch_sessions("s", false).args, vec!["attach", "-t", "s"]);
}

#[test]
fn action_commands_follow_the_action() {
    let cmds = action_commands(&SessionAction::CreateDetachedThenSwitch {
        name: "s".to_string(),
        path: "/p".to_string(),
    });
    assert_eq!(cmds.len(), 2);
    assert_eq!(cmds[0].args, vec!["new-session", "-ds", "s", "-c", "/p"]);
    assert_eq!(cmds[1].args, vec!["switch-client", "-t", "s"]);
    assert!(action_commands(&SessionAction::NoOp).is_empty());
    let cmds = action_commands(&SessionAction::AttachForeground {
        name: "s".to_string(),
    });
    assert_eq!(cmds.len(), 1);
    assert_eq!(cmds[0].args, vec!["attach", "-t", "s"]);
}

#[test]
fn list_sessions_strips_quotes_per_line() {
    let v = list_sessions("'alpha'\n'beta'\n").unwrap();
    assert_eq!(v, vec!["alpha", "beta"]);
    let v = list_sessions("").unwrap();
    assert!(v.is_empty());
    let v = list_sessions("  'padded'  \n").unwrap();
    assert_eq!(v, vec!["padded"]);
}

#[test]
fn list_sessions_rejects_unquoted_lines() {
    assert_eq!(
        list_sessions("'good'\nbad\n").unwrap_err(),
        Error::InvalidSessionLine(1)
    );
    assert_eq!(list_sessions("'").unwrap_err(), Error::InvalidSessionLine(0));
}

// ---- configuration -------------------------------------------------------

#[test]
fn parse_path_list_reads_three_fields_per_line() {
    let pl = parse_path_list("/home/a:|:1:|:3\n/home/b:|:0:|:2\n").unwrap();
    assert_eq!(pl.entries.len(), 2);
    assert_eq!(pl.entries[0].path, "/home/a");
    assert_eq!(pl.entries[0].min_depth, 1);
    assert_eq!(pl.entries[0].max_depth, 3);
    assert_eq!(pl.entries[1].path, "/home/b");
    let empty = parse_path_list("").unwrap();
    assert!(empty.entries.is_empty());
}

#[test]
fn parse_path_list_names_the_bad_line() {
    assert_eq!(
        parse_path_list("/a:|:1:|:2\n/bad:|:3\n").unwrap_err(),
        Error::InvalidFieldCount(1)
    );
    assert_eq!(
        parse_path_list("/a:|:x:|:2\n").unwrap_err(),
        Error::InvalidMinDepth(0)
    );
    assert_eq!(
        parse_path_list("/a:|:1:|:\n").unwrap_err(),
        Error::InvalidMaxDepth(0)
    );
}

#[test]
fn config_round_trips_through_text() {
    let mut pl = PathList { entries: Vec::new() };
    pl.insert_row("/home/a".to_string(), 0, 4);
    pl.insert_row("/srv/x".to_string(), 2, 2);
    let text = pl.to_config_string();
    assert_eq!(text, "/home/a:|:0:|:4\n/srv/x:|:2:|:2");
    let back = parse_path_list(&text).unwrap();
    assert_eq!(back.entries.len(), 2);
    assert_eq!(back.entries[1].path, "/srv/x");
    assert_eq!(back.entries[1].min_depth, 2);
}

#[test]
fn remove_paths_keeps_the_rest_in_order() {
    let mut pl = PathList { entries: Vec::new() };
    pl.insert_row("/a".to_string(), 0, 1);
    pl.insert_row("/b".to_string(), 0, 1);
    pl.insert_row("/c".to_string(), 0, 1);
    pl.remove_paths(vec!["/b".to_string(), "/nope".to_string()]).unwrap();
    let paths: Vec<&str> = pl.entries.iter().map(|e| e.path.as_str()).collect();
    assert_eq!(paths, vec!["/a", "/c"]);
}

#[test]
fn colors_parse_with_defaults_and_overrides() {
    let c = parse_colors("");
    assert_eq!(c, Colors::default());
    assert_eq!(c.fg, AnsiColor::White);
    assert_eq!(c.active, AnsiColor::LightGreen);
    let c = parse_colors("fg=4\n active = 9 \nnot a pair\nborder=99\nselection=15\n");
    assert_eq!(c.fg, AnsiColor::Blue);
    assert_eq!(c.active, AnsiColor::LightRed);
    assert_eq!(c.border, AnsiColor::White); // 99 is not a palette index
    assert_eq!(c.selection, AnsiColor::White);
    assert_eq!(c.inactive, AnsiColor::DarkGray);
}

#[test]
fn ansi_palette_covers_sixteen_indices() {
    assert_eq!(int_to_ansi_colors(0), Some(AnsiColor::Black));
    assert_eq!(int_to_ansi_colors(7), Some(AnsiColor::Gray));
    assert_eq!(int_to_ansi_colors(15), Some(AnsiColor::White));
    assert_eq!(int_to_ansi_colors(16), None);
    assert_eq!(int_to_ansi_colors(255), None);
}

// ---- text helpers ---------------------------------------------------------

#[test]
fn text_helpers_behave_like_their_specifications() {
    assert_eq!(trim("  x y\t\r\n"), "x y");
    assert_eq!(trim(""), "");
    assert_eq!(parse_usize("042"), Some(42));
    assert_eq!(parse_usize(""), None);
    assert_eq!(parse_usize("4x"), None);
    assert_eq!(parse_usize("99999999999999999999999999"), None);
    assert_eq!(format_usize(0), "0");
    assert_eq!(format_usize(90210), "90210");
    assert_eq!(split_by("a:|:b:|:c", ":|:"), vec!["a", "b", "c"]);
    assert_eq!(split_by("abc", ":|:"), vec!["abc"]);
    assert_eq!(split_by("a:|:", ":|:"), vec!["a", ""]);
    assert_eq!(split_lines("a\nb\n"), vec!["a", "b"]);
    assert_eq!(split_lines("a\r\nb"), vec!["a", "b"]);
    assert_eq!(split_lines("a\n\nb"), vec!["a", "", "b"]);
    assert_eq!(split_lines("\n"), vec![""]);
    assert_eq!(split_lines(""), Vec::<String>::new());
    assert!(str_eq("same", "same"));
    assert!(!str_eq("same", "sane"));
}

#[test]
fn error_messages_name_the_line() {
    assert_eq!(
        Error::InvalidFieldCount(2).message(),
        "Invalid number of values on line 2"
    );
    assert_eq!(Error::InvalidMinDepth(0).message(), "Invalid min_depth on line 0");
    assert_eq!(Error::InvalidMaxDepth(10).message(), "Invalid max_depth on line 10");
    assert_eq!(
        Error::InvalidSessionLine(1).message(),
        "Invalid session list entry on line 1"
    );
    assert_eq!(
        Error::MissingSessionName.message(),
        "Failed to get session_name from filepath."
    );
}

#[test]
fn error_chain_renders_one_line_per_cause() {
    let causes = vec!["inner".to_string(), "root".to_string()];
    let text = error_chain_fmt("outer", &causes);
    assert_eq!(text, "outer\nCaused by:\tinner\nCaused by:\troot\n");
    assert_eq!(error_chain_fmt("only", &Vec::new()), "only\n");
}

// ---- command-line data ----------------------------------------------------

#[test]
fn cli_carries_the_subcommand() {
    let cli = Cli {
        command: Some(Commands::Add {
            maxdepth: 3,
            mindepth: 1,
            paths: vec!["/a".to_string()],
        }),
    };
    match cli.command {
        Some(Commands::Add { maxdepth, mindepth, paths }) => {
            assert_eq!(maxdepth, 3);
            assert_eq!(mindepth, 1);
            assert_eq!(paths, vec!["/a"]);
        }
        _ => panic!("expected the add subcommand"),
    }
    let cli = Cli { command: None };
    assert!(cli.command.is_none());
    let del = Commands::Del { paths: vec![] };
    assert!(matches!(del, Commands::Del { .. }));
    assert!(matches!(Commands::List, Commands::List));
}
