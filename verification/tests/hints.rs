use linear_tui::hints::{hints, Ctx};

fn keys_of(ctx: Ctx) -> Vec<(&'static str, &'static str)> {
    hints(ctx).iter().map(|h| (h.keys, h.what)).collect()
}

#[test]
fn search_hints_come_by_rank() {
    assert_eq!(
        keys_of(Ctx::Search),
        [("Enter", "keep"), ("Esc", "clear"), ("Ctrl+G", "search all of Linear")]
    );
}

#[test]
fn the_detail_view_lists_its_own_hints_in_rank_order() {
    assert_eq!(
        keys_of(Ctx::IssueDetail),
        [
            ("Esc", "back"),
            ("J/K", "next/prev"),
            ("s/p/a", "status/priority/assignee"),
            ("m", "comment"),
            ("o", "open"),
            ("y", "copy ID"),
            ("?", "help"),
        ]
    );
}

#[test]
fn ties_keep_the_order_of_the_table() {
    let goto: Vec<&str> = hints(Ctx::GoTo).iter().map(|h| h.keys).collect();
    assert_eq!(goto, ["a", "b", "e", "m", "v", "p", "c", "g"]);
    assert!(hints(Ctx::Comment).is_empty());
}
