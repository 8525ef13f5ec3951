use folder_browser::App;
use folder_browser::Config;
use folder_browser::Entry;
use folder_browser::Selection;
use folder_browser::Mode;

fn entry(path: &str, name: &str, is_dir: bool) -> Entry {
    Entry { path: path.to_string(), name: name.to_string(), is_dir }
}

fn config(dir: &str, query: &str) -> Config {
    Config { directory: dir.to_string(), query: query.to_string(), json_mode: false }
}

fn sample_entries() -> Vec<Entry> {
    vec![
        entry("root/b.txt", "b.txt", false),
        entry("root/A.txt", "A.txt", false),
        entry("root/Zdir", "Zdir", true),
    ]
}

#[test]
fn snapshot_order_parent_dirs_files() {
    let app = App::new(config("root", ""), sample_entries(), true);
    let names: Vec<&str> = app.items.iter().map(|e| e.name.as_str()).collect();
    assert_eq!(names, vec!["..", "Zdir", "A.txt", "b.txt"]);
    // The empty query keeps every row, in snapshot order with score 0.
    assert_eq!(app.filtered_items, vec![(0, 0), (1, 0), (2, 0), (3, 0)]);
    assert_eq!(app.selected, Some(0));
}

#[test]
fn no_parent_row_at_a_root() {
    let app = App::new(config("/", ""), sample_entries(), false);
    let names: Vec<&str> = app.items.iter().map(|e| e.name.as_str()).collect();
    assert_eq!(names, vec!["Zdir", "A.txt", "b.txt"]);
}

#[test]
fn append_then_pop_restores_ranking_and_cursor() {
    let mut app = App::new(config("root", ""), sample_entries(), true);
    let before_items = app.filtered_items.clone();
    let before_cursor = app.selected;
    app.add_char_to_filter('a');
    app.remove_char_from_filter();
    assert_eq!(app.filtered_items, before_items);
    assert_eq!(app.selected, before_cursor);
    assert!(app.filter.is_empty());
}

#[test]
fn narrowing_query_never_grows_the_match_set() {
    let mut app = App::new(config("root", ""), sample_entries(), true);
    let all = app.filtered_items.len();
    app.add_char_to_filter('a');
    let with_a = app.filtered_items.len();
    app.add_char_to_filter('l');
    let with_al = app.filtered_items.len();
    assert!(with_a <= all);
    assert!(with_al <= with_a);
}

#[test]
fn ranking_is_deterministic() {
    let app1 = App::new(config("root", "t"), sample_entries(), true);
    let app2 = App::new(config("root", "t"), sample_entries(), true);
    assert_eq!(app1.filtered_items, app2.filtered_items);
    let mut app3 = App::new(config("root", "t"), sample_entries(), true);
    app3.load_directory(sample_entries(), true);
    assert_eq!(app3.filtered_items, app1.filtered_items);
}

#[test]
fn filtering_ranks_by_score() {
    let entries = vec![
        entry("root/main.rs", "main.rs", false),
        entry("root/more_tests.rs", "more_tests.rs", false),
    ];
    let mut app = App::new(config("root", ""), entries, false);
    app.add_char_to_filter('m');
    // Both names start with m and score 25 minus their length: main.rs wins.
    assert_eq!(app.items[app.filtered_items[0].0].name, "main.rs");
    assert_eq!(app.selected, Some(0));
}

#[test]
fn unmatched_query_empties_the_listing_and_cursor() {
    let mut app = App::new(config("root", ""), sample_entries(), true);
    app.add_char_to_filter('q');
    app.add_char_to_filter('q');
    assert!(app.filtered_items.is_empty());
    assert_eq!(app.selected, None);
    app.clear_filter();
    assert_eq!(app.filtered_items.len(), 4);
    assert_eq!(app.selected, Some(0));
}

#[test]
fn next_and_previous_wrap_around() {
    let mut app = App::new(config("root", ""), sample_entries(), true);
    assert_eq!(app.selected, Some(0));
    app.next();
    assert_eq!(app.selected, Some(1));
    app.next();
    app.next();
    assert_eq!(app.selected, Some(3));
    app.next();
    assert_eq!(app.selected, Some(0));
    app.previous();
    assert_eq!(app.selected, Some(3));
    app.previous();
    assert_eq!(app.selected, Some(2));
}

#[test]
fn moves_on_an_empty_listing_do_nothing() {
    let mut app = App::new(config("root", ""), Vec::new(), false);
    assert_eq!(app.selected, None);
    app.next();
    app.previous();
    app.go_to_top();
    app.go_to_bottom();
    assert_eq!(app.selected, None);
}

#[test]
fn jump_to_top_and_bottom() {
    let mut app = App::new(config("root", ""), sample_entries(), true);
    app.go_to_bottom();
    assert_eq!(app.selected, Some(3));
    app.go_to_top();
    assert_eq!(app.selected, Some(0));
}

#[test]
fn activating_a_file_returns_its_path_and_changes_nothing() {
    let mut app = App::new(config("root", ""), sample_entries(), true);
    app.go_to_bottom();
    let items_before: Vec<String> = app.items.iter().map(|e| e.path.clone()).collect();
    let filter_before = app.filter.clone();
    match app.enter_selected() {
        Selection::File(p) => assert_eq!(p, "root/b.txt"),
        _ => panic!("expected a file selection"),
    }
    let items_after: Vec<String> = app.items.iter().map(|e| e.path.clone()).collect();
    assert_eq!(items_before, items_after);
    assert_eq!(filter_before, app.filter);
}

#[test]
fn activating_a_directory_navigates_and_clears_the_query() {
    let mut app = App::new(config("root", "z"), sample_entries(), true);
    // Only Zdir matches the query "z".
    assert_eq!(app.filtered_items.len(), 1);
    let target = match app.enter_selected() {
        Selection::Directory(p) => p,
        _ => panic!("expected a directory selection"),
    };
    assert_eq!(target, "root/Zdir");
    let sub_entries = vec![entry("root/Zdir/inner.txt", "inner.txt", false)];
    app.navigate_into(target, sub_entries, true);
    assert_eq!(app.current_path, "root/Zdir");
    assert!(app.filter.is_empty());
    assert_eq!(app.selected, Some(0));
    assert_eq!(app.items.len(), 2);
}

#[test]
fn activating_the_parent_row_asks_to_go_up() {
    let app = App::new(config("root", ""), sample_entries(), true);
    assert!(matches!(app.enter_selected(), Selection::Parent));
}

#[test]
fn activating_with_no_rows_is_a_no_op() {
    let mut app = App::new(config("root", ""), sample_entries(), true);
    app.add_char_to_filter('q');
    app.add_char_to_filter('q');
    assert!(matches!(app.enter_selected(), Selection::NoSelection));
}

#[test]
fn preview_follows_a_file_selection() {
    let mut app = App::new(config("root", ""), sample_entries(), true);
    app.go_to_bottom();
    assert_eq!(app.preview_path().as_deref(), Some("root/b.txt"));
    app.load_preview(Some(b"contents".to_vec()));
    assert_eq!(app.preview_content.as_deref(), Some(&b"contents"[..]));
    assert_eq!(app.preview_scroll, 0);
}

#[test]
fn no_preview_for_directories_or_the_parent_row() {
    let mut app = App::new(config("root", ""), sample_entries(), true);
    assert!(app.preview_path().is_none());
    app.load_preview(None);
    assert!(app.preview_content.is_none());
}

#[test]
fn preview_scrolling_steps_by_five_and_clamps_at_zero() {
    let mut app = App::new(config("root", ""), sample_entries(), true);
    app.go_to_bottom();
    app.load_preview(Some(b"many\nlines\nof\ntext".to_vec()));
    app.scroll_preview_down();
    app.scroll_preview_down();
    assert_eq!(app.preview_scroll, 10);
    app.scroll_preview_up();
    assert_eq!(app.preview_scroll, 5);
    app.scroll_preview_up();
    app.scroll_preview_up();
    assert_eq!(app.preview_scroll, 0);
}

#[test]
fn scrolling_without_a_preview_does_nothing() {
    let mut app = App::new(config("root", ""), sample_entries(), true);
    app.scroll_preview_down();
    assert_eq!(app.preview_scroll, 0);
}

#[test]
fn moving_the_cursor_clears_the_stale_preview() {
    let mut app = App::new(config("root", ""), sample_entries(), true);
    app.go_to_bottom();
    app.load_preview(Some(b"contents".to_vec()));
    assert!(app.preview_content.is_some());
    app.next();
    assert!(app.preview_content.is_none());
    assert_eq!(app.preview_scroll, 0);
}

#[test]
fn ranked_results_resolve_rows_and_cap_the_count() {
    let app = App::new(config("root", ""), sample_entries(), true);
    let all = app.ranked_results(100);
    assert_eq!(all.len(), 4);
    assert_eq!(all[0].name, "..");
    assert!(all[0].is_dir);
    assert_eq!(all[3].name, "b.txt");
    assert_eq!(all[3].path, "root/b.txt");
    assert_eq!(all[3].score, 0);
    let capped = app.ranked_results(2);
    assert_eq!(capped.len(), 2);
}

#[test]
fn initial_query_filters_from_the_start() {
    let app = App::new(config("root", "txt"), sample_entries(), true);
    assert_eq!(app.filtered_items.len(), 2);
    for sr in app.ranked_results(100) {
        assert!(sr.name.ends_with(".txt"));
    }
}

#[test]
fn mode_switching_only_touches_the_mode() {
    let mut app = App::new(config("root", ""), sample_entries(), true);
    assert!(app.mode.is_normal());
    app.set_mode(Mode::Insert);
    assert!(app.mode.is_insert());
    assert_eq!(app.filtered_items.len(), 4);
    app.set_mode(Mode::Normal);
    assert!(app.mode.is_normal());
}
