use linear_tui::markdown::render;
use linear_tui::memo::Memo;

#[test]
fn a_memo_gives_back_what_a_fresh_render_gives() {
    let mut memo = Memo::default();
    memo.begin();
    let first = memo.render("**Bold** text that wraps", 12, &Vec::new(), false);
    assert_eq!(first, 0);
    assert_eq!(memo.lines(first), &render("**Bold** text that wraps", 12, &Vec::new()));
    let second = memo.render("a comment", 20, &Vec::new(), true);
    assert_eq!(second, 1);
    memo.finish();

    memo.begin();
    let again = memo.render("**Bold** text that wraps", 12, &Vec::new(), false);
    assert_eq!(again, 0);
    assert_eq!(memo.lines(again), &render("**Bold** text that wraps", 12, &Vec::new()));
    let changed = memo.render("another comment", 20, &Vec::new(), true);
    assert_eq!(changed, 1);
    let card = memo.lines(changed);
    let plain = render("another comment", 18, &Vec::new());
    assert_eq!(card.len(), plain.len());
    for (closed, open) in card.iter().zip(plain.iter()) {
        assert_eq!(&closed[..open.len()], &open[..]);
        assert_eq!(closed.last().unwrap().content, "\u{2502}");
        let width: usize = closed.iter().map(|s| s.content.chars().count()).sum();
        assert_eq!(width, 20);
    }
    memo.finish();
}

#[test]
fn finishing_a_frame_drops_what_it_did_not_render() {
    let mut memo = Memo::new();
    memo.render("one", 10, &Vec::new(), false);
    memo.render("two", 10, &Vec::new(), false);
    memo.finish();
    memo.begin();
    let only = memo.render("one", 10, &Vec::new(), false);
    memo.finish();
    assert_eq!(only, 0);
    assert_eq!(memo.lines(0), &render("one", 10, &Vec::new()));
}
