//! Texts, numbers, paths, ordered maps, digests and documents.
use umf_builder::architecture::Architecture;
use umf_builder::boot::RootfsFs;
use umf_builder::digest::{sha256_digest, Hasher, TextHasher};
use umf_builder::json::{read_json, Json};
use umf_builder::l0::{L0Kind, Payload};
use umf_builder::number::{
    padded_left, padded_right, read_signed, read_unsigned, write_decimal, write_in_base,
};
use umf_builder::order::{path_before, path_positions, sort_paths, sort_texts, text_before};
use umf_builder::path::{
    file_name_of, has_parent_step, is_same_path, joined_path, names_of, parent_of, part_below,
    path_is_within,
};
use umf_builder::text::{
    contains, is_whitespace, joined, lines_of, replaced, split_on, split_once,
    starts_with, strip_prefix, strip_suffix, trim_end_matches, trim_start_matches, trimmed,
    words_of,
};
use umf_builder::text_map::TextMap;

fn ts(v: &[&str]) -> Vec<String> {
    v.iter().map(|s| s.to_string()).collect()
}

const SAMPLES: [&str; 14] = [
    "", " ", "a", "a b", "  a\tb \n", "a\nb", "a\r\nb\r\n", "\n", "a\n\n", "//a//b/", "é€x",
    "\u{2003}a\u{a0}", "key=value=more", "a..b",
];

#[test]
fn texts_are_taken_apart_as_std_does() {
    for s in SAMPLES {
        assert_eq!(lines_of(s), s.lines().collect::<Vec<_>>(), "{s:?}");
        assert_eq!(words_of(s), s.split_whitespace().collect::<Vec<_>>(), "{s:?}");
        assert_eq!(trimmed(s), s.trim(), "{s:?}");
        assert_eq!(split_on(s, '/'), s.split('/').collect::<Vec<_>>(), "{s:?}");
        assert_eq!(trim_start_matches(s, '/'), s.trim_start_matches('/'), "{s:?}");
        assert_eq!(trim_end_matches(s, '/'), s.trim_end_matches('/'), "{s:?}");
        assert_eq!(replaced(s, 'a', "bb"), s.replace('a', "bb"), "{s:?}");
        for p in SAMPLES {
            assert_eq!(starts_with(s, p), s.starts_with(p), "{s:?} {p:?}");
            assert_eq!(contains(s, p), s.contains(p), "{s:?} {p:?}");
            assert_eq!(strip_prefix(s, p).as_deref(), s.strip_prefix(p), "{s:?} {p:?}");
            assert_eq!(strip_suffix(s, p).as_deref(), s.strip_suffix(p), "{s:?} {p:?}");
            assert_eq!(
                split_once(s, p),
                s.split_once(p).map(|(a, b)| (a.to_string(), b.to_string())),
                "{s:?} {p:?}"
            );
        }
    }
    assert_eq!(joined(&ts(&["a", "b", "c"]), ", "), "a, b, c");
    assert_eq!(joined(&Vec::new(), ", "), "");
    for c in (0..=0x3000u32).filter_map(char::from_u32) {
        assert_eq!(is_whitespace(c), c.is_whitespace(), "{c:?}");
    }
}

#[test]
fn numbers_are_read_and_written_as_std_does() {
    for n in [0u128, 1, 9, 10, 99, 1 << 70, u128::MAX] {
        assert_eq!(write_decimal(n), n.to_string());
        assert_eq!(write_in_base(n, 16, false), format!("{n:x}"));
        assert_eq!(write_in_base(n, 8, false), format!("{n:o}"));
    }
    for s in ["0", "7", "+7", "-7", "", "-", "+", "007", "18446744073709551615", "x1", "1x", " 1",
        "18446744073709551616", "99999999999999999999999", "-9223372036854775808"]
    {
        assert_eq!(read_unsigned(s, u64::MAX), s.parse::<u64>().ok(), "{s:?}");
        assert_eq!(read_unsigned(s, u32::MAX as u64), s.parse::<u32>().ok().map(u64::from), "{s:?}");
        assert_eq!(read_signed(s, i64::MIN, i64::MAX), s.parse::<i64>().ok(), "{s:?}");
        assert_eq!(
            read_signed(s, i32::MIN as i64, i32::MAX as i64),
            s.parse::<i32>().ok().map(i64::from),
            "{s:?}"
        );
    }
    assert_eq!(padded_left("7", 3, '0'), "007");
    assert_eq!(padded_right("é", 3), format!("{:<3}", "é"));
    assert_eq!(padded_right("long", 2), "long");
}

#[test]
fn paths_are_taken_apart_as_std_does() {
    let samples = ["", "/", "a", "/a", "a/b", "/a/b/", "/a/../b", "./a", "a/./b", "..", "/a/.."];
    for s in samples {
        let p = std::path::Path::new(s);
        assert_eq!(
            file_name_of(s),
            p.file_name().map(|n| n.to_string_lossy().into_owned()),
            "{s:?}"
        );
        assert_eq!(
            has_parent_step(s),
            p.components().any(|c| matches!(c, std::path::Component::ParentDir)),
            "{s:?}"
        );
        for r in samples {
            assert_eq!(joined_path(s, r), p.join(r).to_string_lossy(), "{s:?} {r:?}");
        }
    }
    assert_eq!(names_of("/a//b/./c"), ts(&["a", "b", "c"]));
    assert_eq!(parent_of("/a/b").as_deref(), Some("/a"));
    assert_eq!(parent_of("/a").as_deref(), Some("/"));
    assert_eq!(part_below("/tmp/x/boot/k", "/tmp/x").as_deref(), Some("boot/k"));
    assert_eq!(part_below("/tmp/xy", "/tmp/x"), None);
    assert!(path_is_within("/tmp/x", "/tmp/x"));
    assert!(!path_is_within("/tmp/xy", "/tmp/x"));
}

#[test]
fn texts_and_paths_are_ordered() {
    let mut v = ts(&["b", "a", "", "ab", "é", "Z", "a"]);
    let sorted = sort_texts(v.clone());
    v.sort();
    assert_eq!(sorted, v);
    assert!(text_before("a", "b"));
    let mut paths: Vec<std::path::PathBuf> =
        ["a-b", "a/b", "a", "a.c", "b"].iter().map(std::path::PathBuf::from).collect();
    let mine = sort_paths(ts(&["a-b", "a/b", "a", "a.c", "b"]));
    paths.sort();
    let want: Vec<String> = paths.iter().map(|p| p.to_string_lossy().into_owned()).collect();
    assert_eq!(mine, want);
    assert!(path_before("a/b", "a-b"));
    assert!(!text_before("a/b", "a-b"));
}

#[test]
fn a_map_keeps_its_keys_in_order() {
    let mut m: TextMap<u32> = TextMap::new();
    assert!(m.is_empty());
    for (k, v) in [("b", 1), ("a", 2), ("c", 3), ("b", 4)] {
        m.insert(k.to_string(), v);
    }
    assert_eq!(m.len(), 3);
    assert_eq!((m.key_at(0).as_str(), *m.value_at(0)), ("a", 2));
    assert_eq!((m.key_at(1).as_str(), *m.value_at(1)), ("b", 4));
    assert_eq!(m.get("c"), Some(&3));
    assert_eq!(m.get("d"), None);
}

#[test]
fn digests_have_their_known_values() {
    assert_eq!(
        sha256_digest(b""),
        "sha256:e3b0c44298fc1c149afbf4c8996fb92427ae41e4649b934ca495991b7852b855"
    );
    let mut h = Hasher::new();
    h.feed(b"a");
    h.feed(b"bc");
    let abc = "ba7816bf8f01cfea414140de5dae2223b00361a396177a9cb410ff61f20015ad";
    assert_eq!(h.finish(), abc);
    assert_eq!(TextHasher::new().feed("a").feed("bc").finish(), abc);
}

#[test]
fn a_document_is_read() {
    let doc = read_json(b"{\"a\":\"x\",\"b\":[\"1\",2,\"3\"],\"c\":{\"k\":\"v\",\"n\":1},\"d\":null}")
        .expect("json");
    assert_eq!(doc.get_text("a").as_deref(), Some("x"));
    assert_eq!(doc.get_texts("b"), Some(ts(&["1", "3"])));
    assert_eq!(doc.get_text("b"), None);
    assert!(matches!(doc.get("d"), Some(Json::Null)));
    assert!(doc.get("e").is_none());
    let map = doc.get_text_map("c").expect("map");
    assert_eq!(map.get("k").map(String::as_str), Some("v"));
    assert_eq!(map.len(), 1);
    assert!(read_json(b"{").is_err());
    assert!(matches!(read_json(b"true"), Ok(Json::Bool(true))));
    assert_eq!(read_json(b"\"s\"").unwrap().as_str().map(String::as_str), Some("s"));
}

#[test]
fn a_kind_is_described() {
    assert_eq!(L0Kind::Payload(Payload::Kernel).describe(), "Payload(Kernel)");
    assert_eq!(L0Kind::Unknown("a\"b".to_string()).describe(), "Unknown(\"a\\\"b\")");
    assert_eq!(L0Kind::Unknown("a\"b".to_string()).describe(),
        format!("{:?}", L0Kind::Unknown("a\"b".to_string())));
    assert!(L0Kind::from_label("kernel").is_kernel());
    assert_eq!(Architecture::Aarch64.oci_arch_string(), "arm64");
    assert_eq!(RootfsFs::Ext4.as_str(), "ext4");
}

#[test]
fn paths_go_by_their_components() {
    let samples = [
        "", "/", "//", ".", "./", "/.", "..", "a", "a/", "a//", "a/.", "a/./", "/a", "/a/", "//a",
        "./a", "./a/", "a/b", "a//b", "a/./b", "/a/b/", "/a//b//", "/a/./b/.", "a/..", "a/../b",
        "/a/b.", "/a/.b", "a.", ".a", "/a/b/c", "///a/b", "./.", "a/b/c/./",
    ];
    for s in samples {
        let p = std::path::Path::new(s);
        assert_eq!(
            parent_of(s),
            p.parent().map(|q| q.to_string_lossy().into_owned()),
            "{s:?}"
        );
        for r in samples {
            let q = std::path::Path::new(r);
            assert_eq!(is_same_path(s, r), p == q, "{s:?} {r:?}");
            assert_eq!(path_is_within(s, r), p.starts_with(q), "{s:?} {r:?}");
        }
    }
}

#[test]
fn equal_paths_keep_their_order() {
    let v = ts(&["b", "a/b", "a-b", "b", "a", "a/b"]);
    assert_eq!(path_positions(&v), vec![4, 1, 5, 2, 0, 3]);
}
