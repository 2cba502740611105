use leansticky_core::activation::{ActivationWatcher, POLL_INTERVAL_NANOS};
use leansticky_core::fonts::{font_candidates, TargetOs};
use leansticky_core::model::{locale_from_candidates, locale_names_japanese, Locale, ResolvedLocale};
use leansticky_core::path::{compare_paths, same_path, FsPath, PathPart};
use leansticky_core::text::Order;

fn from_std(p: &str) -> FsPath {
    let parts = std::path::Path::new(p)
        .components()
        .map(|c| match c {
            std::path::Component::Prefix(x) => PathPart::Prefix(x.as_os_str().to_string_lossy().into_owned()),
            std::path::Component::RootDir => PathPart::RootDir,
            std::path::Component::CurDir => PathPart::CurDir,
            std::path::Component::ParentDir => PathPart::ParentDir,
            std::path::Component::Normal(n) => PathPart::Normal(n.to_string_lossy().into_owned()),
        })
        .collect();
    FsPath::from_parts(parts)
}

#[test]
fn paths_compare_like_std_paths() {
    let cases = [
        ("/a", "/b"),
        ("/a", "/a/b"),
        ("/a/b", "/a/b"),
        ("/a/b/", "/a/b"),
        ("a", "/a"),
        ("./a", "a"),
        ("../a", "a"),
        ("/z", "/ä"),
        ("/notes/2", "/notes/10"),
        ("/x/./y", "/x/y"),
    ];
    for (a, b) in cases {
        let expected = match std::path::Path::new(a).cmp(std::path::Path::new(b)) {
            std::cmp::Ordering::Less => Order::Less,
            std::cmp::Ordering::Equal => Order::Equal,
            std::cmp::Ordering::Greater => Order::Greater,
        };
        let (pa, pb) = (from_std(a), from_std(b));
        assert_eq!(compare_paths(&pa, &pb), expected, "{a} vs {b}");
        assert_eq!(same_path(&pa, &pb), expected == Order::Equal, "{a} vs {b}");
    }
}

#[test]
fn join_appends_a_name() {
    let p = from_std("/notes").join("01ABC.yml");
    assert_eq!(p, from_std("/notes/01ABC.yml"));
}

#[test]
fn activation_is_reported_once_per_change() {
    let mut w = ActivationWatcher::new(from_std("/c/activation.signal"), Some(100), 0);
    assert_eq!(w.path(), &from_std("/c/activation.signal"));
    // Too soon: nothing is looked at.
    assert!(!w.poll(POLL_INTERVAL_NANOS - 1, Some(200)));
    assert!(w.poll(POLL_INTERVAL_NANOS, Some(200)));
    assert!(!w.poll(2 * POLL_INTERVAL_NANOS, Some(200)));
    // An older time is no news; an unreadable file neither.
    assert!(!w.poll(3 * POLL_INTERVAL_NANOS, Some(150)));
    assert!(!w.poll(4 * POLL_INTERVAL_NANOS, None));
    assert!(w.poll(5 * POLL_INTERVAL_NANOS, Some(201)));
}

#[test]
fn a_file_seen_first_is_news() {
    let mut w = ActivationWatcher::new(from_std("/s"), None, 0);
    assert!(w.poll(POLL_INTERVAL_NANOS, Some(-5)));
    assert!(!w.poll(2 * POLL_INTERVAL_NANOS, Some(-5)));
}

#[test]
fn locale_resolution() {
    assert!(locale_names_japanese("ja_JP.UTF-8"));
    assert!(locale_names_japanese("JA"));
    assert!(!locale_names_japanese("j"));
    assert!(!locale_names_japanese("en_US.UTF-8"));
    let none: Vec<Option<String>> = vec![None, None, None];
    assert_eq!(locale_from_candidates(&none), ResolvedLocale::En);
    let lang_ja = vec![None, None, Some("ja_JP.UTF-8".to_owned())];
    assert_eq!(locale_from_candidates(&lang_ja), ResolvedLocale::Ja);
    let mixed = vec![Some("C".to_owned()), Some("ja".to_owned()), None];
    assert_eq!(locale_from_candidates(&mixed), ResolvedLocale::Ja);
    assert_eq!(Locale::System.resolve(&lang_ja), ResolvedLocale::Ja);
    assert_eq!(Locale::En.resolve(&lang_ja), ResolvedLocale::En);
    assert_eq!(Locale::Ja.resolve(&none), ResolvedLocale::Ja);
    assert_eq!(Locale::default(), Locale::System);
}

#[test]
fn font_candidates_per_platform() {
    let linux = font_candidates(TargetOs::Linux);
    assert_eq!(linux.len(), 11);
    assert_eq!(linux[0], "/usr/share/fonts/opentype/noto/NotoSansCJK-Regular.ttc");
    assert_eq!(linux[10], "/mnt/c/Windows/Fonts/msgothic.ttc");
    let windows = font_candidates(TargetOs::Windows);
    assert_eq!(windows.len(), 5);
    assert_eq!(windows[3], "C:\\Windows\\Fonts\\meiryo.ttc");
    let mac = font_candidates(TargetOs::MacOs);
    assert_eq!(mac.len(), 4);
    assert_eq!(mac[3], "/System/Library/Fonts/Supplemental/Arial Unicode.ttf");
}
