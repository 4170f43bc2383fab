use fc::text::chars_of;
use fc::{collect_stems, count_occurrences, deletion_plan, select_orphans};

fn strings(items: &[&str]) -> Vec<String> {
    items.iter().map(|s| s.to_string()).collect()
}

#[test]
fn stems_are_collected_in_listing_order() {
    let entries = strings(&["foo.jpg", "bar.jpg", "bar.orf"]);
    let extensions = strings(&["jpg", "orf"]);
    assert_eq!(collect_stems(&entries, &extensions), strings(&["foo", "bar", "bar"]));
}

#[test]
fn entries_out_of_scope_give_no_stem() {
    let entries = strings(&["foo.jpg", "notes.txt", "README", ".hidden", "bar.ORF", "baz.jpeg"]);
    let extensions = strings(&["jpg", "orf"]);
    assert_eq!(collect_stems(&entries, &extensions), strings(&["foo", "bar"]));
}

#[test]
fn duplicate_stems_are_retained() {
    let entries = strings(&["a.jpg", "a.orf", "a.JPG", "b.jpg"]);
    let extensions = strings(&["jpg", "orf"]);
    assert_eq!(collect_stems(&entries, &extensions), strings(&["a", "a", "a", "b"]));
}

#[test]
fn empty_listing_gives_no_stems() {
    let extensions = strings(&["jpg"]);
    assert_eq!(collect_stems(&strings(&[]), &extensions), strings(&[]));
    assert_eq!(collect_stems(&strings(&["foo.jpg"]), &strings(&[])), strings(&[]));
}

#[test]
fn occurrences_are_counted() {
    let stems = strings(&["foo", "bar", "bar", "baz", "bar"]);
    assert_eq!(count_occurrences(&stems, &"foo".to_string()), 1);
    assert_eq!(count_occurrences(&stems, &"bar".to_string()), 3);
    assert_eq!(count_occurrences(&stems, &"baz".to_string()), 1);
    assert_eq!(count_occurrences(&stems, &"qux".to_string()), 0);
    assert_eq!(count_occurrences(&strings(&[]), &"foo".to_string()), 0);
}

#[test]
fn stems_are_compared_exactly() {
    let stems = strings(&["Foo", "foo", "foo "]);
    assert_eq!(count_occurrences(&stems, &"foo".to_string()), 1);
    assert_eq!(select_orphans(&stems), strings(&["Foo", "foo", "foo "]));
}

#[test]
fn stems_that_occur_once_are_selected() {
    let stems = strings(&["foo", "bar", "bar"]);
    assert_eq!(select_orphans(&stems), strings(&["foo"]));
}

#[test]
fn selection_keeps_first_seen_order() {
    let stems = strings(&["d", "a", "b", "a", "c", "b", "e"]);
    assert_eq!(select_orphans(&stems), strings(&["d", "c", "e"]));
}

#[test]
fn paired_stems_are_not_selected() {
    let stems = strings(&["a", "a", "b", "b", "b"]);
    assert_eq!(select_orphans(&stems), strings(&[]));
    assert_eq!(select_orphans(&strings(&[])), strings(&[]));
}

#[test]
fn every_selected_stem_occurs_once() {
    let stems = strings(&["x", "y", "x", "z", "w", "y", "v"]);
    let selected = select_orphans(&stems);
    for stem in &stems {
        let count = count_occurrences(&stems, stem);
        assert!(count >= 1);
        assert_eq!(selected.contains(stem), count < 2);
    }
    for stem in &selected {
        assert_eq!(count_occurrences(&selected, stem), 1);
    }
}

#[test]
fn plan_lists_every_stem_with_every_extension() {
    let stems = strings(&["foo", "baz"]);
    let extensions = strings(&["jpg", "orf"]);
    assert_eq!(
        deletion_plan(&stems, &extensions),
        strings(&["foo.jpg", "foo.orf", "baz.jpg", "baz.orf"])
    );
}

#[test]
fn plan_repeats_a_repeated_extension() {
    let stems = strings(&["foo"]);
    let extensions = strings(&["jpg", "jpg", "JPG"]);
    assert_eq!(deletion_plan(&stems, &extensions), strings(&["foo.jpg", "foo.jpg", "foo.JPG"]));
}

#[test]
fn plan_is_empty_without_stems_or_extensions() {
    assert_eq!(deletion_plan(&strings(&[]), &strings(&["jpg"])), strings(&[]));
    assert_eq!(deletion_plan(&strings(&["foo"]), &strings(&[])), strings(&[]));
}

#[test]
fn plan_has_one_name_for_each_pair() {
    let stems = strings(&["a", "b", "c"]);
    let extensions = strings(&["1", "2", "3", "4"]);
    let plan = deletion_plan(&stems, &extensions);
    assert_eq!(plan.len(), 12);
    assert_eq!(plan[0], "a.1");
    assert_eq!(plan[5], "b.2");
    assert_eq!(plan[11], "c.4");
}

#[test]
fn chars_are_listed_in_order() {
    assert_eq!(chars_of("a.é"), vec!['a', '.', 'é']);
    assert_eq!(chars_of(""), Vec::<char>::new());
}

#[test]
fn listing_order_does_not_change_the_candidates() {
    let extensions = strings(&["jpg", "orf"]);
    let listings = [
        strings(&["a.jpg", "b.jpg", "b.orf", "c.orf", "d.txt"]),
        strings(&["d.txt", "c.orf", "b.orf", "b.jpg", "a.jpg"]),
        strings(&["b.orf", "a.jpg", "d.txt", "c.orf", "b.jpg"]),
    ];
    for listing in &listings {
        let mut selected = select_orphans(&collect_stems(listing, &extensions));
        selected.sort();
        assert_eq!(selected, strings(&["a", "c"]));
    }
}

#[test]
fn every_collected_stem_occurs_at_least_once() {
    let entries = strings(&["a.jpg", "b.jpg", "b.orf", "c.txt", "d"]);
    let stems = collect_stems(&entries, &strings(&["jpg", "orf"]));
    for stem in &stems {
        assert!(count_occurrences(&stems, stem) >= 1);
    }
    assert_eq!(count_occurrences(&stems, &"c".to_string()), 0);
    assert_eq!(count_occurrences(&stems, &"d".to_string()), 0);
}
