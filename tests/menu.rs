use hypr_hub::app::{App, MenuItem};
use hypr_hub::config::{Category, CommandItem};

fn cmd(name: &str, command: &str) -> CommandItem {
    CommandItem { name: name.to_string(), command: command.to_string() }
}

fn sample() -> Vec<Category> {
    vec![
        Category {
            name: "System".to_string(),
            commands: vec![cmd("Update", "upd.sh"), cmd("Clean", "cln.sh")],
        },
        Category { name: "Theme".to_string(), commands: vec![cmd("Change", "thm.sh")] },
    ]
}

fn is_header(item: &MenuItem, label: &str) -> bool {
    match item {
        MenuItem::CategoryHeader(name) => name == label,
        MenuItem::Command(_) => false,
    }
}

fn is_command(item: &MenuItem, label: &str, line: &str) -> bool {
    match item {
        MenuItem::CategoryHeader(_) => false,
        MenuItem::Command(c) => c.name == label && c.command == line,
    }
}

#[test]
fn flattens_and_cycles_forward() {
    let mut app = App::new(sample(), "Hub".to_string());
    let items = app.items();
    assert_eq!(items.len(), 5);
    assert!(is_header(&items[0], "System"));
    assert!(is_command(&items[1], "Update", "upd.sh"));
    assert!(is_command(&items[2], "Clean", "cln.sh"));
    assert!(is_header(&items[3], "Theme"));
    assert!(is_command(&items[4], "Change", "thm.sh"));
    assert_eq!(app.title(), "Hub");
    assert_eq!(app.selected(), Some(1));
    app.next();
    assert_eq!(app.selected(), Some(2));
    app.next();
    assert_eq!(app.selected(), Some(4));
    app.next();
    assert_eq!(app.selected(), Some(1));
}

#[test]
fn previous_skips_header_backwards() {
    let mut app = App::new(sample(), "Hub".to_string());
    app.next();
    app.next();
    assert_eq!(app.selected(), Some(4));
    app.previous();
    assert_eq!(app.selected(), Some(2));
    app.previous();
    assert_eq!(app.selected(), Some(1));
    app.previous();
    assert_eq!(app.selected(), Some(4));
}

#[test]
fn next_visits_every_command_once() {
    let mut app = App::new(sample(), "Hub".to_string());
    app.next();
    let start = app.selected();
    let mut seen = Vec::new();
    for _ in 0..3 {
        seen.push(app.selected().unwrap());
        app.next();
    }
    assert_eq!(app.selected(), start);
    seen.sort();
    assert_eq!(seen, vec![1, 2, 4]);
}

#[test]
fn next_then_previous_returns() {
    let mut app = App::new(sample(), "Hub".to_string());
    for steps in 0..3 {
        for _ in 0..steps {
            app.next();
        }
        let before = app.selected();
        app.next();
        app.previous();
        assert_eq!(app.selected(), before);
        app.previous();
        app.next();
        assert_eq!(app.selected(), before);
    }
}

#[test]
fn selected_command_follows_cursor() {
    let mut app = App::new(sample(), "Hub".to_string());
    assert_eq!(app.get_selected_command().map(|s| s.as_str()), Some("upd.sh"));
    app.next();
    assert_eq!(app.get_selected_command().map(|s| s.as_str()), Some("cln.sh"));
    app.next();
    assert_eq!(app.get_selected_command().map(|s| s.as_str()), Some("thm.sh"));
    app.previous();
    app.previous();
    app.previous();
    assert_eq!(app.get_selected_command().map(|s| s.as_str()), Some("thm.sh"));
}

#[test]
fn no_commands_means_no_selection() {
    let cats = vec![
        Category { name: "Empty".to_string(), commands: Vec::new() },
        Category { name: "Also empty".to_string(), commands: Vec::new() },
    ];
    let mut app = App::new(cats, "Hub".to_string());
    assert_eq!(app.items().len(), 2);
    assert_eq!(app.selected(), None);
    app.next();
    assert_eq!(app.selected(), None);
    app.previous();
    assert_eq!(app.selected(), None);
    assert_eq!(app.get_selected_command(), None);
}

#[test]
fn no_categories_at_all() {
    let mut app = App::new(Vec::new(), String::new());
    assert!(app.items().is_empty());
    app.next();
    app.previous();
    assert_eq!(app.selected(), None);
    assert_eq!(app.get_selected_command(), None);
}

#[test]
fn single_category_single_command() {
    let cats = vec![Category { name: "Only".to_string(), commands: vec![cmd("One", "one.sh")] }];
    let mut app = App::new(cats, "Hub".to_string());
    assert_eq!(app.selected(), Some(1));
    app.next();
    assert_eq!(app.selected(), Some(1));
    app.previous();
    assert_eq!(app.selected(), Some(1));
    assert_eq!(app.get_selected_command().map(|s| s.as_str()), Some("one.sh"));
}

#[test]
fn empty_categories_between_commands_are_skipped() {
    let cats = vec![
        Category { name: "Empty".to_string(), commands: Vec::new() },
        Category { name: "A".to_string(), commands: vec![cmd("a", "a.sh")] },
        Category { name: "Void".to_string(), commands: Vec::new() },
        Category { name: "B".to_string(), commands: vec![cmd("b", "b.sh")] },
        Category { name: "Tail".to_string(), commands: Vec::new() },
    ];
    let mut app = App::new(cats, "Hub".to_string());
    assert_eq!(app.items().len(), 7);
    assert_eq!(app.selected(), Some(2));
    app.next();
    assert_eq!(app.selected(), Some(5));
    app.next();
    assert_eq!(app.selected(), Some(2));
    app.previous();
    assert_eq!(app.selected(), Some(5));
    app.previous();
    assert_eq!(app.selected(), Some(2));
}
