use peridot_render::identity::{FileKey, PackageCoord};
use peridot_render::links::{page_links, Destination, Frame, FrameItem, LinkDesc, Point, Transform, UNIT};
use peridot_render::preprocess::expand_wiki_links;
use peridot_render::render::{render_first_page, PageOutput, Raster, RenderError, RenderResult};
use peridot_render::world::{LoadError, ResolveError, World};

fn pt(x: i64, y: i64) -> Point {
    Point { x: x * UNIT, y: y * UNIT }
}

fn url_link(at: Point, size: Point, url: &str) -> (Point, FrameItem) {
    (at, FrameItem::Link(Destination::Url(url.to_string()), size))
}

fn translate(x: i64, y: i64) -> Transform {
    Transform { sx: UNIT as i32, ky: 0, kx: 0, sy: UNIT as i32, tx: x * UNIT, ty: y * UNIT }
}

fn key(spec: &str, path: &str) -> FileKey {
    FileKey::in_package(PackageCoord::parse(spec).ok().unwrap(), path.to_string())
}

#[test]
fn wiki_link_becomes_markup() {
    assert_eq!(expand_wiki_links("[[Foo]]"), "#link(\"internal-scheme://Foo\")[Foo]");
}

#[test]
fn wiki_links_inside_text() {
    assert_eq!(
        expand_wiki_links("see [[A b]] and [[c]]."),
        "see #link(\"internal-scheme://A b\")[A b] and #link(\"internal-scheme://c\")[c]."
    );
}

#[test]
fn text_without_brackets_is_unchanged() {
    let src = "= Title\n*bold* [single] ]] [ [x] ] ünïcode";
    assert_eq!(expand_wiki_links(src), src);
}

#[test]
fn malformed_brackets_pass_through() {
    assert_eq!(expand_wiki_links("[[]]"), "[[]]");
    assert_eq!(expand_wiki_links("[[a\nb]]"), "[[a\nb]]");
    assert_eq!(expand_wiki_links("[[open"), "[[open");
    assert_eq!(expand_wiki_links(""), "");
}

#[test]
fn shortest_name_wins() {
    assert_eq!(expand_wiki_links("[[a]] x]]"), "#link(\"internal-scheme://a\")[a] x]]");
    assert_eq!(expand_wiki_links("[[]]]]"), "#link(\"internal-scheme://]\")[]]]");
}

#[test]
fn package_spec_parses() {
    let c = PackageCoord::parse("@preview/cetz:0.3.2").ok().unwrap();
    assert_eq!(c.namespace, "preview");
    assert_eq!(c.name, "cetz");
    assert_eq!((c.major, c.minor, c.patch), (0, 3, 2));
}

#[test]
fn bad_package_spec_is_refused() {
    let mut w = World::new();
    let r = w.load_package("preview/cetz", vec![("lib.typ".to_string(), b"x".to_vec())]);
    assert!(matches!(r, Err(LoadError::InvalidPackageSpec(_))));
    let id = FileKey::bare("lib.typ".to_string());
    assert!(matches!(w.resolve_bytes(&id), Err(ResolveError::Other)));
}

#[test]
fn loaded_package_file_resolves() {
    let mut w = World::new();
    let files = vec![
        ("lib.typ".to_string(), b"#let x = 1".to_vec()),
        ("data.bin".to_string(), vec![0xff, 0x00]),
    ];
    assert!(w.load_package("@preview/demo:1.0.0", files).is_ok());
    let id = key("@preview/demo:1.0.0", "lib.typ");
    assert_eq!(w.resolve_bytes(&id).ok().unwrap(), b"#let x = 1".to_vec());
    assert_eq!(w.resolve_text(&id).ok().unwrap(), "#let x = 1");
    let bin = key("@preview/demo:1.0.0", "data.bin");
    assert_eq!(w.resolve_bytes(&bin).ok().unwrap(), vec![0xff, 0x00]);
    assert!(matches!(w.resolve_text(&bin), Err(ResolveError::InvalidUtf8)));
}

#[test]
fn unloaded_package_is_not_found() {
    let mut w = World::new();
    assert!(w.load_package("@preview/demo:1.0.0", vec![("lib.typ".to_string(), vec![1])]).is_ok());
    let other_version = key("@preview/demo:1.0.1", "lib.typ");
    match w.resolve_bytes(&other_version) {
        Err(ResolveError::PackageNotFound(c)) => assert_eq!((c.major, c.minor, c.patch), (1, 0, 1)),
        _ => panic!("expected a missing package"),
    }
    let missing_path = key("@preview/demo:1.0.0", "other.typ");
    assert!(matches!(w.resolve_text(&missing_path), Err(ResolveError::PackageNotFound(_))));
}

#[test]
fn second_load_wins() {
    let mut w = World::new();
    assert!(w.load_package("@local/notes:0.1.0", vec![("a.typ".to_string(), b"first".to_vec())]).is_ok());
    assert!(w.load_package("@local/notes:0.1.0", vec![("a.typ".to_string(), b"second".to_vec())]).is_ok());
    let id = key("@local/notes:0.1.0", "a.typ");
    assert_eq!(w.resolve_bytes(&id).ok().unwrap(), b"second".to_vec());
}

#[test]
fn main_document_resolves_after_expansion() {
    let mut w = World::new();
    w.submit("Go to [[Home]]", "/main.typ".to_string());
    let id = w.main_identity();
    assert!(id.package.is_none());
    assert_eq!(id.path, "/main.typ");
    assert_eq!(w.resolve_text(&id).ok().unwrap(), "Go to #link(\"internal-scheme://Home\")[Home]");
    assert_eq!(w.resolve_bytes(&id).ok().unwrap(), b"Go to #link(\"internal-scheme://Home\")[Home]".to_vec());
}

#[test]
fn resubmission_forgets_previous_document() {
    let mut w = World::new();
    w.submit("first", "/a.typ".to_string());
    w.submit("second", "/b.typ".to_string());
    assert!(matches!(w.resolve_bytes(&FileKey::bare("/a.typ".to_string())), Err(ResolveError::Other)));
    assert_eq!(w.resolve_text(&FileKey::bare("/b.typ".to_string())).ok().unwrap(), "second");
}

#[test]
fn fresh_world_resolves_nothing() {
    let w = World::new();
    assert!(matches!(w.resolve_bytes(&w.main_identity()), Err(ResolveError::Other)));
}

#[test]
fn link_geometry_is_scaled() {
    let frame = Frame { items: vec![url_link(pt(10, 20), pt(5, 5), "https://a.example")] };
    let links = page_links(&frame, 2 * UNIT).unwrap();
    assert_eq!(links.len(), 1);
    let l = &links[0];
    assert_eq!((l.x, l.y, l.width, l.height), (20 * UNIT, 40 * UNIT, 10 * UNIT, 10 * UNIT));
    assert_eq!(l.url, "https://a.example");
}

#[test]
fn nested_group_translation_composes() {
    let inner = Frame { items: vec![url_link(pt(1, 1), pt(2, 2), "internal-scheme://x")] };
    let frame = Frame { items: vec![(pt(0, 0), FrameItem::Group(translate(3, 4), inner))] };
    let links = page_links(&frame, UNIT).unwrap();
    assert_eq!(links.len(), 1);
    assert_eq!((links[0].x, links[0].y), (4 * UNIT, 5 * UNIT));
    assert_eq!((links[0].width, links[0].height), (2 * UNIT, 2 * UNIT));
}

#[test]
fn scaled_group_and_fractional_resolution() {
    let half = UNIT as i32 / 2;
    let inner = Frame { items: vec![url_link(pt(4, 8), pt(1, 1), "u")] };
    let t = Transform { sx: half, ky: 0, kx: 0, sy: half, tx: 0, ty: 0 };
    let frame = Frame { items: vec![(pt(10, 20), FrameItem::Group(t, inner))] };
    let links = page_links(&frame, 3 * UNIT / 2).unwrap();
    assert_eq!((links[0].x, links[0].y), (13 * UNIT + UNIT / 2, 27 * UNIT));
}

#[test]
fn only_url_links_are_collected_in_order() {
    let inner = Frame { items: vec![url_link(pt(0, 0), pt(1, 1), "second"), (pt(0, 0), FrameItem::Other)] };
    let frame = Frame {
        items: vec![
            url_link(pt(0, 0), pt(1, 1), "first"),
            (pt(5, 5), FrameItem::Link(Destination::Internal, pt(1, 1))),
            (pt(0, 0), FrameItem::Group(translate(0, 0), inner)),
            (pt(9, 9), FrameItem::Other),
            url_link(pt(2, 0), pt(1, 1), "third"),
        ],
    };
    let links = page_links(&frame, UNIT).unwrap();
    let urls: Vec<&str> = links.iter().map(|l| l.url.as_str()).collect();
    assert_eq!(urls, vec!["first", "second", "third"]);
}

#[test]
fn negative_positions_round_down() {
    let frame = Frame { items: vec![url_link(Point { x: -1, y: 3 }, pt(1, 1), "n")] };
    let links = page_links(&frame, UNIT / 2).unwrap();
    assert_eq!((links[0].x, links[0].y), (-1, 1));
}

#[test]
fn overflowing_geometry_is_reported() {
    let frame = Frame { items: vec![url_link(Point { x: i64::MAX, y: 0 }, pt(1, 1), "big")] };
    assert!(page_links(&frame, 2 * UNIT).is_none());
    let page = PageOutput { raster: Raster { width: 0, height: 0, data: vec![] }, frame };
    assert!(matches!(render_first_page(Some(page), 2 * UNIT), Err(RenderError::Geometry)));
}

#[test]
fn document_without_pages_fails() {
    assert!(matches!(render_first_page(None, UNIT), Err(RenderError::NoPages)));
}

#[test]
fn pixel_buffer_has_four_bytes_per_pixel() {
    let frame = Frame { items: vec![url_link(pt(1, 1), pt(1, 1), "x")] };
    let page = PageOutput { raster: Raster { width: 3, height: 2, data: vec![7; 24] }, frame };
    let r = render_first_page(Some(page), UNIT).ok().unwrap();
    assert_eq!((r.width, r.height), (3, 2));
    assert_eq!(r.data.len(), (r.width * r.height * 4) as usize);
    assert_eq!(r.links.len(), 1);
}

#[test]
fn short_pixel_buffer_is_refused() {
    let page = PageOutput { raster: Raster { width: 3, height: 2, data: vec![0; 23] }, frame: Frame { items: vec![] } };
    assert!(matches!(render_first_page(Some(page), UNIT), Err(RenderError::RasterSize)));
}

#[test]
fn sequential_renders_do_not_leak() {
    let first = PageOutput {
        raster: Raster { width: 1, height: 1, data: vec![1, 2, 3, 4] },
        frame: Frame { items: vec![url_link(pt(1, 1), pt(1, 1), "one"), url_link(pt(2, 2), pt(1, 1), "two")] },
    };
    let second = PageOutput {
        raster: Raster { width: 2, height: 1, data: vec![9; 8] },
        frame: Frame { items: vec![url_link(pt(3, 3), pt(1, 1), "three")] },
    };
    let a = render_first_page(Some(first), UNIT).ok().unwrap();
    let b = render_first_page(Some(second), UNIT).ok().unwrap();
    assert_eq!(a.links.len(), 2);
    assert_eq!(b.links.len(), 1);
    assert_eq!(b.links[0].url, "three");
    assert_eq!(b.data, vec![9; 8]);
}

#[test]
fn constructors_keep_fields() {
    let l = LinkDesc::new(1, 2, 3, 4, "u".to_string());
    assert_eq!((l.x, l.y, l.width, l.height), (1, 2, 3, 4));
    let r = RenderResult::new(1, 1, vec![0, 0, 0, 0], vec![l]);
    assert_eq!(r.links[0].url, "u");
    assert_eq!(r.data.len(), 4);
}

#[test]
fn mixed_brackets_expand_non_greedily() {
    assert_eq!(
        expand_wiki_links("[[A]] [[B]] [[]] [[C"),
        "#link(\"internal-scheme://A\")[A] #link(\"internal-scheme://B\")[B] [[]] [[C"
    );
}

#[test]
fn bad_package_spec_carries_parser_message() {
    let mut w = World::new();
    match w.load_package("not-a-spec", vec![("lib.typ".to_string(), vec![1, 2])]) {
        Err(LoadError::InvalidPackageSpec(msg)) => {
            assert_eq!(msg, "package specification must start with '@'")
        }
        Ok(()) => panic!("expected a refused specification"),
    }
    assert!(matches!(PackageCoord::parse("not-a-spec"), Err(m) if m == "package specification must start with '@'"));
}
