use mf2tar::pkgmf::{
    get_full_line, parse_define, parse_entry, parse_file_fields, replace_vars, Defines, Dir, Entry, File,
    FsAttr, Link, MacroLookup, NoMacros, Reader,
};

fn lines_of(input: &str) -> Vec<String> {
    input.lines().map(|l| l.to_string()).collect()
}

struct MustNotBeAsked;

impl MacroLookup for MustNotBeAsked {
    fn lookup(&self, _name: &str) -> Option<String> {
        panic!("shound not be called")
    }
}

struct UpperCase;

impl MacroLookup for UpperCase {
    fn lookup(&self, name: &str) -> Option<String> {
        Some(name.to_uppercase())
    }
}

struct OnlyA;

impl MacroLookup for OnlyA {
    fn lookup(&self, name: &str) -> Option<String> {
        assert_eq!(name, "a");
        None
    }
}

#[test]
fn comments_and_continuations() {
    let input = r"
# comment line
normal line
cont \
line
# empty line below

long \
cont \
line";
    let lines = lines_of(input);
    let mut pos: usize = 0;

    assert_eq!(get_full_line(&lines, &mut pos), Some("normal line".to_string()));
    assert_eq!(get_full_line(&lines, &mut pos), Some("cont line".to_string()));
    assert_eq!(get_full_line(&lines, &mut pos), Some("long cont line".to_string()));
    assert_eq!(get_full_line(&lines, &mut pos), None);
}

#[test]
fn var_replacing() {
    let clean_cases = &[
        "clean",
        "$leading sign",
        "trailing sign$",
        "mid$mid",
        "two$$two",
        "unmatched parens $(content",
        "spaced $ (some)",
    ];
    for case in clean_cases.iter() {
        assert_eq!(*case, replace_vars(case, &MustNotBeAsked));
    }

    let simple_cases = &[
        ("one $(a)", "one A"),
        ("$(a) two $(b)", "A two B"),
        ("$(a)$(b)$(c)", "ABC"),
    ];
    for (inp, outp) in simple_cases.iter() {
        assert_eq!(*outp, replace_vars(inp, &UpperCase));
    }
    assert_eq!("elidevar", replace_vars("elide$(a)var", &OnlyA));
}

#[test]
fn entry_parsing() {
    assert_eq!(
        parse_entry("<include something.inc>"),
        Entry::Include("something.inc".to_string())
    );
    assert_eq!(
        parse_entry("dir path=bin"),
        Entry::Dir(Dir {
            path: "bin".to_string(),
            attr: Default::default()
        })
    );
    assert_eq!(
        parse_entry("file path=bin/ls"),
        Entry::File(File {
            path: "bin/ls".to_string(),
            attr: Default::default(),
            chash: None,
            cname: None,
        })
    );
    assert_eq!(
        parse_entry("file path=bin/secret owner=special group=selective mode=0540"),
        Entry::File(File {
            path: "bin/secret".to_string(),
            attr: FsAttr {
                owner: Some("special".to_string()),
                group: Some("selective".to_string()),
                mode: Some("0540".to_string()),
            },
            chash: None,
            cname: None,
        })
    );
    assert_eq!(
        parse_entry("link path=bin/redirect target=secret"),
        Entry::Link(Link {
            path: "bin/redirect".to_string(),
            attr: Default::default(),
            target: "secret".to_string(),
        })
    );
}

#[test]
fn continuation_at_end_of_input_loses_only_the_backslash() {
    let lines = vec!["# c".to_string(), "last \\".to_string()];
    let mut pos: usize = 0;
    assert_eq!(get_full_line(&lines, &mut pos), Some("last ".to_string()));
    assert_eq!(pos, 2);
    assert_eq!(get_full_line(&lines, &mut pos), None);
}

#[test]
fn continuation_takes_a_comment_line_as_text() {
    let lines = vec!["a \\".to_string(), "# b".to_string(), "c".to_string()];
    let mut pos: usize = 0;
    assert_eq!(get_full_line(&lines, &mut pos), Some("a # b".to_string()));
    assert_eq!(get_full_line(&lines, &mut pos), Some("c".to_string()));
}

#[test]
fn defines_later_definition_holds() {
    let mut d = Defines::new();
    d.define("ARCH", "i386");
    d.define("ARCH", "amd64");
    d.define("REL", "5.11");
    assert_eq!(d.lookup("ARCH"), Some("amd64".to_string()));
    assert_eq!(d.lookup("REL"), Some("5.11".to_string()));
    assert_eq!(d.lookup("NONE"), None);
    assert_eq!(replace_vars("lib/$(ARCH)/x.$(REL)$(NONE)", &d), "lib/amd64/x.5.11");
}

#[test]
fn macro_forms_that_are_left_alone() {
    let d = Defines::new();
    assert_eq!(replace_vars("$(a$b)", &d), "$(a$b)");
    assert_eq!(replace_vars("a$)b(", &d), "a$)b(");
    assert_eq!(replace_vars("$()x", &d), "x");
    assert_eq!(replace_vars("", &NoMacros), "");
    assert_eq!(replace_vars("$", &NoMacros), "$");
    assert_eq!(replace_vars("$(", &NoMacros), "$(");
}

#[test]
fn fields_last_one_wins_and_unknown_names_are_passed_over() {
    let (path, target, attr, chash, cname) =
        parse_file_fields("abc path=a path=b  colour=red chash=ff def target=t=u mode=");
    assert_eq!(path, Some("b".to_string()));
    assert_eq!(target, Some("t=u".to_string()));
    assert_eq!(attr.owner, None);
    assert_eq!(attr.group, None);
    assert_eq!(attr.mode, Some("".to_string()));
    assert_eq!(chash, Some("ff".to_string()));
    assert_eq!(cname, Some("def".to_string()));
}

#[test]
fn entries_that_state_nothing_are_unknown() {
    assert_eq!(parse_entry("dir"), Entry::Unknown("dir".to_string()));
    assert_eq!(parse_entry("dir owner=root"), Entry::Unknown("dir owner=root".to_string()));
    assert_eq!(parse_entry("link path=a"), Entry::Unknown("link path=a".to_string()));
    assert_eq!(
        parse_entry("<include x.inc"),
        Entry::Unknown("<include x.inc".to_string())
    );
    assert_eq!(parse_entry("<include"), Entry::Unknown("<include".to_string()));
    assert_eq!(parse_entry("set name=x"), Entry::Unknown("set name=x".to_string()));
    assert_eq!(parse_entry(" dir path=a"), Entry::Unknown(" dir path=a".to_string()));
    assert_eq!(parse_entry(""), Entry::Unknown("".to_string()));
}

#[test]
fn file_entry_from_a_repository() {
    assert_eq!(
        parse_entry("file 0a1b chash=9f8e path=usr/bin/ls mode=0555"),
        Entry::File(File {
            path: "usr/bin/ls".to_string(),
            attr: FsAttr { owner: None, group: None, mode: Some("0555".to_string()) },
            chash: Some("9f8e".to_string()),
            cname: Some("0a1b".to_string()),
        })
    );
    assert_eq!(
        parse_entry("dir\tpath=a\u{3000}owner=o"),
        Entry::Dir(Dir {
            path: "a".to_string(),
            attr: FsAttr { owner: Some("o".to_string()), group: None, mode: None },
        })
    );
}

#[test]
fn get_path_of_each_record() {
    assert_eq!(parse_entry("dir path=bin").get_path(), Some("bin"));
    assert_eq!(parse_entry("file path=bin/ls").get_path(), Some("bin/ls"));
    assert_eq!(parse_entry("link path=l target=t").get_path(), Some("l"));
    assert_eq!(parse_entry("<include a>").get_path(), None);
    assert_eq!(parse_entry("nothing").get_path(), None);
}

#[test]
fn reader_skips_what_substitution_leaves_empty_or_commented() {
    let mut d = Defines::new();
    d.define("hash", "#");
    d.define("sp", "  ");
    let lines = lines_of(
        "# first\n\n$(hash) dir path=hidden\n$(gone)\n$(sp)\n  dir path=a  \nfile path=$(gone)b \\\nowner=me\nweird\n<include x.inc>",
    );
    let mut r = Reader::new(lines, d);
    assert_eq!(
        r.next(),
        Some(Entry::Dir(Dir { path: "a".to_string(), attr: Default::default() }))
    );
    assert_eq!(
        r.next(),
        Some(Entry::File(File {
            path: "b".to_string(),
            attr: FsAttr { owner: Some("me".to_string()), group: None, mode: None },
            chash: None,
            cname: None,
        }))
    );
    assert_eq!(r.next(), Some(Entry::Unknown("weird".to_string())));
    assert_eq!(r.next(), Some(Entry::Include("x.inc".to_string())));
    assert_eq!(r.next(), None);
    assert_eq!(r.next(), None);
}

#[test]
fn definitions_are_cut_at_the_first_equals_sign() {
    assert_eq!(parse_define("ARCH=i386"), Some(("ARCH".to_string(), "i386".to_string())));
    assert_eq!(parse_define("A=b=c"), Some(("A".to_string(), "b=c".to_string())));
    assert_eq!(parse_define("A="), Some(("A".to_string(), "".to_string())));
    assert_eq!(parse_define("=v"), Some(("".to_string(), "v".to_string())));
    assert_eq!(parse_define("ARCH"), None);
    assert_eq!(parse_define(""), None);
}

#[test]
fn text_beyond_ascii_is_read_by_character() {
    let mut d = Defines::new();
    d.define("\u{e4}", "\u{f6}\u{f6}");
    assert_eq!(replace_vars("b\u{fc}$(\u{e4})ro$(x)\u{2713}", &d), "b\u{fc}\u{f6}\u{f6}ro\u{2713}");
    assert_eq!(
        parse_entry("dir\u{a0}path=b\u{fc}ro\u{2003}owner=\u{2713}"),
        Entry::Dir(Dir {
            path: "b\u{fc}ro".to_string(),
            attr: FsAttr { owner: Some("\u{2713}".to_string()), group: None, mode: None },
        })
    );
    let lines = vec!["\u{fc} \\".to_string(), "\u{e4}".to_string()];
    let mut pos: usize = 0;
    assert_eq!(get_full_line(&lines, &mut pos), Some("\u{fc} \u{e4}".to_string()));
}

fn all_entries(lines: Vec<String>) -> Vec<Entry> {
    let mut d = Defines::new();
    d.define("hash", "#");
    let mut r = Reader::new(lines, d);
    let mut out = Vec::new();
    while let Some(e) = r.next() {
        out.push(e);
    }
    out
}

#[test]
fn comments_and_empty_lines_between_full_lines_give_nothing() {
    let lines = lines_of("dir path=a\nfile path=b \\\nowner=o\n$(hash) gone\nlink path=l target=t\nodd");
    let want = all_entries(lines.clone());
    assert_eq!(want.len(), 4);
    for k in [0usize, 1, 3, 4, 5, 6] {
        for extra in ["", "# comment", "#", "# ends with a marker \\"] {
            let mut longer = lines.clone();
            longer.insert(k, extra.to_string());
            assert_eq!(all_entries(longer), want, "line {:?} at {}", extra, k);
        }
    }
}

#[test]
fn a_line_inserted_within_a_continued_line_is_text() {
    let lines = vec!["dir path=a \\".to_string(), "\\".to_string(), "owner=o".to_string()];
    assert_eq!(
        all_entries(lines.clone()),
        vec![Entry::Dir(Dir {
            path: "a".to_string(),
            attr: FsAttr { owner: Some("o".to_string()), group: None, mode: None },
        })]
    );
    let mut longer = lines.clone();
    longer.insert(2, "#c".to_string());
    assert_eq!(
        all_entries(longer),
        vec![
            Entry::Dir(Dir {
                path: "a".to_string(),
                attr: FsAttr { owner: None, group: None, mode: None },
            }),
            Entry::Unknown("owner=o".to_string()),
        ]
    );
    let mut longer = lines;
    longer.insert(1, "".to_string());
    assert_eq!(all_entries(longer).len(), 3);
}
