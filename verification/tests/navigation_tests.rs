use bezel_docs::navigation::get_navigation;
use bezel_docs::pages::Page;

fn page(slug: &str, category: &str, order: u32) -> Page {
    Page {
        slug: slug.to_string(),
        title: slug.to_string(),
        category: category.to_string(),
        order,
        html: String::new(),
    }
}

#[test]
fn grouping_sorts_by_order_within_category() {
    let pages = vec![page("A", "cat1", 2), page("B", "cat1", 1), page("C", "cat2", 5)];
    let nav = get_navigation(&pages);
    assert_eq!(nav.len(), 2);
    assert_eq!(nav[0].name, "cat1");
    let slugs: Vec<&str> = nav[0].pages.iter().map(|p| p.slug.as_str()).collect();
    assert_eq!(slugs, ["B", "A"]);
    assert_eq!(nav[1].name, "cat2");
    assert_eq!(nav[1].pages.len(), 1);
    assert_eq!(nav[1].pages[0].slug, "C");
}

#[test]
fn categories_come_out_in_name_order() {
    let pages = vec![page("x", "zeta", 1), page("y", "alpha", 1), page("z", "mid", 1)];
    let nav = get_navigation(&pages);
    let names: Vec<&str> = nav.iter().map(|c| c.name.as_str()).collect();
    assert_eq!(names, ["alpha", "mid", "zeta"]);
}

#[test]
fn equal_orders_keep_table_order() {
    let pages = vec![page("first", "c", 7), page("second", "c", 7), page("third", "c", 7)];
    let nav = get_navigation(&pages);
    let slugs: Vec<&str> = nav[0].pages.iter().map(|p| p.slug.as_str()).collect();
    assert_eq!(slugs, ["first", "second", "third"]);
}

#[test]
fn empty_table_gives_empty_navigation() {
    let nav = get_navigation(&Vec::new());
    assert!(nav.is_empty());
}
