use audiolog_randomizer::paths::{
    data_bak_path, data_dir_path, data_zip_path, has_extension, join, replace_extension,
    secret_of_psalm_46_ogg_path, separates, stem_of, subs_bak_path, subtitles_path, tmp_dir_path,
};
use std::path::Path;

#[test]
fn join_puts_one_separator_between() {
    assert_eq!(join("witness", "data-pc"), "witness/data-pc");
    assert_eq!(join("C:\\Games\\The Witness", "tmp"), "C:\\Games\\The Witness/tmp");
}

#[test]
fn join_keeps_a_trailing_separator() {
    assert_eq!(join("witness/", "data-pc"), "witness/data-pc");
    assert_eq!(join("C:\\Games\\", "data-pc"), "C:\\Games\\data-pc");
}

#[test]
fn join_with_empty_parts() {
    assert_eq!(join("", "data-pc"), "data-pc");
    assert_eq!(join("witness", ""), "witness/");
    assert_eq!(join("", ""), "");
}

#[test]
fn join_keeps_other_characters() {
    assert_eq!(join("jeu/données", "été.ogg"), "jeu/données/été.ogg");
}

#[test]
fn separators_are_slash_and_backslash() {
    assert!(separates('/'));
    assert!(separates('\\'));
    assert!(!separates('.'));
    assert!(!separates(':'));
}

#[test]
fn stem_drops_directory_and_extension() {
    assert_eq!(stem_of("globals.pkg"), "globals");
    assert_eq!(stem_of("packages/save.pkg"), "save");
    assert_eq!(stem_of("packages\\save.pkg"), "save");
    assert_eq!(stem_of("a/b/c.tar.gz"), "c.tar");
}

#[test]
fn stem_without_extension_is_the_name() {
    assert_eq!(stem_of("noext"), "noext");
    assert_eq!(stem_of("dir.d/noext"), "noext");
    assert_eq!(stem_of(".hidden"), ".hidden");
    assert_eq!(stem_of("name."), "name");
    assert_eq!(stem_of(""), "");
    assert_eq!(stem_of("dir/"), "");
}

#[test]
fn extension_is_what_follows_the_last_dot() {
    assert!(has_extension("x.ogg", "ogg"));
    assert!(has_extension("dir/x.y.ogg", "ogg"));
    assert!(has_extension("dir\\x.ogg", "ogg"));
    assert!(!has_extension("x.ogg", "og"));
    assert!(!has_extension("x.ogg", "oggs"));
    assert!(!has_extension("x.OGG", "ogg"));
    assert!(!has_extension("x.sub", "ogg"));
}

#[test]
fn extension_is_missing_without_an_inner_dot() {
    assert!(!has_extension("ogg", "ogg"));
    assert!(!has_extension(".ogg", "ogg"));
    assert!(!has_extension("dir.ogg/x", "ogg"));
    assert!(!has_extension("", "ogg"));
    assert!(has_extension("x.", ""));
    assert!(!has_extension("x", ""));
}

#[test]
fn replace_extension_swaps_or_adds() {
    assert_eq!(replace_extension("x.ogg", "sub"), "x.sub");
    assert_eq!(replace_extension("logs/x.ogg", "sub"), "logs/x.sub");
    assert_eq!(replace_extension("x", "sub"), "x.sub");
    assert_eq!(replace_extension("x.tar.gz", "sub"), "x.tar.sub");
    assert_eq!(replace_extension(".hidden", "sub"), ".hidden.sub");
    assert_eq!(replace_extension("dir.d/x", "ogg"), "dir.d/x.ogg");
}

#[test]
fn installation_paths() {
    assert_eq!(data_zip_path("w"), "w/data-pc.zip");
    assert_eq!(data_bak_path("w"), "w/data-pc.zip.bak");
    assert_eq!(data_dir_path("w"), "w/data-pc");
    assert_eq!(tmp_dir_path("w"), "w/tmp");
    assert_eq!(subtitles_path("w"), "w/data\\strings\\en.subtitles");
    assert_eq!(subs_bak_path("w"), "w/data\\strings\\en.subtitles.bak");
    assert_eq!(secret_of_psalm_46_ogg_path("w"), "w/data/videos/psalm46.ogg");
}

#[test]
fn backup_names_add_a_suffix() {
    assert_eq!(data_bak_path("w"), format!("{}.bak", data_zip_path("w")));
    assert_eq!(subs_bak_path("w"), format!("{}.bak", subtitles_path("w")));
}

fn every_path(alphabet: &[char], max_len: usize) -> Vec<String> {
    let mut paths = vec![String::new()];
    let mut from = 0;
    for _ in 0..max_len {
        let until = paths.len();
        for i in from..until {
            for &c in alphabet {
                let mut longer = paths[i].clone();
                longer.push(c);
                paths.push(longer);
            }
        }
        from = until;
    }
    paths
}

#[test]
fn names_agree_with_the_platform_on_plain_paths() {
    for path in every_path(&['a', 'b', '.', '/'], 7) {
        let last = path.rsplit('/').next().unwrap();
        if last.is_empty() || last == "." || last == ".." {
            continue;
        }
        let platform = Path::new(&path);
        let stem = platform.file_stem().unwrap().to_str().unwrap();
        assert_eq!(stem_of(&path), stem, "path {:?}", path);
        let extension = platform.extension().map(|e| e.to_str().unwrap());
        for ext in ["a", "b", "ab", ""] {
            assert_eq!(has_extension(&path, ext), extension == Some(ext), "path {:?}", path);
        }
        if stem == "." {
            continue;
        }
        assert_eq!(
            replace_extension(&path, "sub"),
            platform.with_extension("sub").to_str().unwrap(),
            "path {:?}",
            path
        );
    }
}

#[test]
fn join_agrees_with_the_platform_on_relative_names() {
    for base in ["w", "w/", "a/b", "/", "/abs/dir", "."] {
        for child in ["x", "x/y", "x.ogg", "d/", ".hidden"] {
            assert_eq!(
                join(base, child),
                Path::new(base).join(child).to_str().unwrap(),
                "{:?} and {:?}",
                base,
                child
            );
        }
    }
}

#[test]
fn replace_extension_of_a_name_that_starts_with_two_dots() {
    assert_eq!(replace_extension("..a", "sub"), "..sub");
    assert_eq!(stem_of("..a"), ".");
    assert!(has_extension("..a", "a"));
}
