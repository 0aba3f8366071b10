use pixl::gallery::{save_dest, try_save_dest, Entry, Gallery};

fn entry(name: &str, seed: Option<u64>) -> Entry {
    Entry {
        path: format!("/run/{name}.png"),
        prompt: "p".into(),
        seed,
        saved: false,
    }
}

#[test]
fn follow_edge_autoadvances_then_holds() {
    let mut g = Gallery::live();
    g.push(entry("a", None));
    assert_eq!(g.current, 0);
    g.push(entry("b", None));
    assert_eq!(g.current, 1, "rides the live edge");
    // step back to inspect -> stop following
    g.prev();
    assert_eq!(g.current, 0);
    g.push(entry("c", None));
    assert_eq!(g.current, 0, "held position while more stream in");
    assert_eq!(g.len(), 3);
    // jumping to last re-attaches to the edge
    g.last();
    g.push(entry("d", None));
    assert_eq!(g.current, 3);
}

#[test]
fn nav_clamps_at_both_ends() {
    let mut g = Gallery::fixed(vec![entry("a", None), entry("b", None)]);
    g.prev();
    assert_eq!(g.current, 0);
    g.next();
    g.next();
    assert_eq!(g.current, 1, "clamps at the last image");
}

#[test]
fn save_dest_uniquifies_on_collision() {
    let dir = "/saved";
    let e = entry("house_000", Some(42));
    // nothing exists yet -> keep the source name
    assert_eq!(save_dest(dir, &e, |_| false), "/saved/house_000.png".to_string());
    // direct name taken -> fall back to the seed
    let taken = "/saved/house_000.png";
    assert_eq!(save_dest(dir, &e, |p| p == taken), "/saved/house_000_42.png".to_string());
    // both taken -> numeric suffix
    let taken2 = ["/saved/house_000.png".to_string(), "/saved/house_000_42.png".to_string()];
    assert_eq!(
        save_dest(dir, &e, |p| taken2.contains(&p.to_string())),
        "/saved/house_000_1.png".to_string()
    );
}

#[test]
fn save_dest_without_seed_goes_to_counter() {
    let e = entry("sprite", None);
    let taken = ["/saved/sprite.png".to_string(), "/saved/sprite_1.png".to_string()];
    assert_eq!(
        save_dest("/saved", &e, |p| taken.contains(&p.to_string())),
        "/saved/sprite_2.png".to_string()
    );
}

#[test]
fn save_dest_defaults_for_bare_names() {
    let e = Entry { path: "/".into(), prompt: String::new(), seed: None, saved: false };
    assert_eq!(save_dest("/keep", &e, |_| false), "/keep/img.png".to_string());
    let e = Entry { path: "/run/art.jpg".into(), prompt: String::new(), seed: None, saved: false };
    assert_eq!(save_dest("/keep", &e, |_| false), "/keep/art.jpg".to_string());
}

#[test]
fn current_and_current_mut_follow_cursor() {
    let mut g = Gallery::default();
    assert!(g.is_empty());
    assert!(g.current().is_none());
    assert!(g.current_mut().is_none());
    g.push(entry("a", Some(1)));
    g.push(entry("b", Some(2)));
    // a default gallery does not follow the edge
    assert_eq!(g.current, 0);
    assert_eq!(g.current().unwrap().seed, Some(1));
    g.current_mut().unwrap().saved = true;
    assert!(g.entries[0].saved);
    assert!(!g.entries[1].saved);
}

#[test]
fn first_and_last_jump() {
    let mut g = Gallery::fixed(vec![entry("a", None), entry("b", None), entry("c", None)]);
    g.last();
    assert_eq!(g.current, 2);
    g.first();
    assert_eq!(g.current, 0);
    // first does not follow when there is more than one image
    g.push(entry("d", None));
    assert_eq!(g.current, 0);
    g.next();
    assert_eq!(g.current, 1);
    g.prev();
    assert_eq!(g.current, 0, "prev undoes next");
}

#[test]
fn next_reaching_last_follows_again() {
    let mut g = Gallery::live();
    g.push(entry("a", None));
    g.push(entry("b", None));
    g.prev();
    g.next();
    assert_eq!(g.current, 1);
    g.push(entry("c", None));
    assert_eq!(g.current, 2, "reaching the last image re-attaches to the edge");
}

#[test]
fn discard_removes_current_and_clamps() {
    let mut g = Gallery::fixed(vec![entry("a", None), entry("b", None), entry("c", None)]);
    g.last();
    let gone = g.discard_current().unwrap();
    assert_eq!(gone.path, "/run/c.png");
    assert_eq!(g.len(), 2);
    assert_eq!(g.current, 1);
    g.first();
    let gone = g.discard_current().unwrap();
    assert_eq!(gone.path, "/run/a.png");
    assert_eq!(g.current, 0);
    assert_eq!(g.current().unwrap().path, "/run/b.png");
    g.discard_current();
    assert!(g.is_empty());
    assert_eq!(g.current, 0);
    assert!(g.discard_current().is_none());
}

#[test]
fn try_save_dest_takes_first_free_candidate() {
    let e = entry("house_000", Some(42));
    assert_eq!(
        try_save_dest("/saved", &e, |_| false),
        Some("/saved/house_000.png".to_string())
    );
    let taken = ["/saved/house_000.png", "/saved/house_000_42.png", "/saved/house_000_1.png"];
    assert_eq!(
        try_save_dest("/saved", &e, |p| taken.contains(&p)),
        Some("/saved/house_000_2.png".to_string())
    );
}
