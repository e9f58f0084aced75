//! The manifest line language: comments, continuation lines, `$(name)`
//! macros and the classification of a line as an entry.

use vstd::prelude::*;
use vstd::string::*;
use crate::text::{
    chars_of, copy_range, find_non_space, find_space, lemma_skip_space, lemma_skip_word,
    same_text, skip_space, skip_word, string_of, string_of_range, trim, trimmed,
};

verus! {

/// Ownership and permission attributes of an entry, as written.
#[derive(Debug, PartialEq)]
pub struct FsAttr {
    pub owner: Option<String>,
    pub group: Option<String>,
    pub mode: Option<String>,
}

/// A directory.
#[derive(Debug, PartialEq)]
pub struct Dir {
    pub path: String,
    pub attr: FsAttr,
}

/// A file. The content hash and the content name say which blob of a
/// repository holds it; entries for a directory tree have neither.
#[derive(Debug, PartialEq)]
pub struct File {
    pub path: String,
    pub attr: FsAttr,
    pub chash: Option<String>,
    pub cname: Option<String>,
}

/// A symbolic link.
#[derive(Debug, PartialEq)]
pub struct Link {
    pub path: String,
    pub attr: FsAttr,
    pub target: String,
}

/// One record of a manifest.
#[derive(Debug, PartialEq)]
pub enum Entry {
    Include(String),
    Dir(Dir),
    File(File),
    Link(Link),
    Unknown(String),
}

/// The characters of an optional string.
pub open spec fn opt_text(o: Option<String>) -> Option<Seq<char>> {
    match o {
        Some(s) => Some(s@),
        None => None,
    }
}

/// The attributes of an entry, as characters.
pub struct FsAttrView {
    pub owner: Option<Seq<char>>,
    pub group: Option<Seq<char>>,
    pub mode: Option<Seq<char>>,
}

/// An entry, as characters.
pub enum EntryView {
    Include(Seq<char>),
    Dir { path: Seq<char>, attr: FsAttrView },
    File { path: Seq<char>, attr: FsAttrView, chash: Option<Seq<char>>, cname: Option<Seq<char>> },
    Link { path: Seq<char>, attr: FsAttrView, target: Seq<char> },
    Unknown(Seq<char>),
}

impl View for FsAttr {
    type V = FsAttrView;

    open spec fn view(&self) -> FsAttrView {
        FsAttrView {
            owner: opt_text(self.owner),
            group: opt_text(self.group),
            mode: opt_text(self.mode),
        }
    }
}

impl View for Entry {
    type V = EntryView;

    open spec fn view(&self) -> EntryView {
        match *self {
            Entry::Include(name) => EntryView::Include(name@),
            Entry::Dir(d) => EntryView::Dir { path: d.path@, attr: d.attr@ },
            Entry::File(f) => EntryView::File {
                path: f.path@,
                attr: f.attr@,
                chash: opt_text(f.chash),
                cname: opt_text(f.cname),
            },
            Entry::Link(l) => EntryView::Link { path: l.path@, attr: l.attr@, target: l.target@ },
            Entry::Unknown(line) => EntryView::Unknown(line@),
        }
    }
}

impl EntryView {
    /// The manifest path of a directory, file or link record.
    pub open spec fn path(self) -> Option<Seq<char>> {
        match self {
            EntryView::Dir { path, .. } => Some(path),
            EntryView::File { path, .. } => Some(path),
            EntryView::Link { path, .. } => Some(path),
            _ => None,
        }
    }
}

impl Default for FsAttr {
    fn default() -> (r: FsAttr)
        ensures
            r.owner is None,
            r.group is None,
            r.mode is None,
    {
        FsAttr { owner: None, group: None, mode: None }
    }
}

impl Entry {
    /// The manifest path of a directory, file or link record; none for the
    /// other records.
    pub fn get_path(&self) -> (r: Option<&str>)
        ensures
            match r {
                Some(p) => self@.path() == Some(p@),
                None => self@.path() is None,
            },
    {
        match self {
            Entry::Dir(dir) => Some(dir.path.as_str()),
            Entry::File(file) => Some(file.path.as_str()),
            Entry::Link(link) => Some(link.path.as_str()),
            _ => None,
        }
    }
}

/// A source of macro values: a mapping from names to values.
pub trait MacroLookup {
    /// The mapping that this source stands for: the empty one, unless the
    /// source says otherwise.
    open spec fn table(&self) -> Map<Seq<char>, Seq<char>> {
        Map::empty()
    }

    /// The value of `name`, if it has one.
    fn lookup(&self, name: &str) -> (r: Option<String>)
        ensures
            match r {
                Some(v) => self.table().contains_key(name@) && self.table()[name@] == v@,
                None => !self.table().contains_key(name@),
            },
    ;
}

/// The source that defines no macro.
pub struct NoMacros;

impl MacroLookup for NoMacros {
    fn lookup(&self, name: &str) -> (r: Option<String>) {
        None
    }
}

/// Macro definitions given as pairs of name and value; where a name is
/// defined twice the later definition holds.
pub struct Defines {
    pub pairs: Vec<(String, String)>,
}

/// The mapping that the first `n` pairs define.
pub open spec fn table_of(pairs: Seq<(String, String)>, n: int) -> Map<Seq<char>, Seq<char>>
    decreases n,
{
    if n <= 0 || n > pairs.len() {
        Map::empty()
    } else {
        table_of(pairs, n - 1).insert(pairs[n - 1].0@, pairs[n - 1].1@)
    }
}

impl Defines {
    /// No definitions.
    pub fn new() -> (r: Defines)
        ensures
            r.table() == Map::<Seq<char>, Seq<char>>::empty(),
    {
        Defines { pairs: Vec::new() }
    }

    /// Defines `name` as `value`, in place of an earlier definition.
    pub fn define(&mut self, name: &str, value: &str)
        ensures
            final(self).table() == old(self).table().insert(name@, value@),
    {
        self.pairs.push((String::from_str(name), String::from_str(value)));
        assert(table_of(self.pairs@, self.pairs@.len() - 1) == table_of(
            old(self).pairs@,
            old(self).pairs@.len() as int,
        )) by {
            lemma_table_of_prefix(old(self).pairs@, self.pairs@, old(self).pairs@.len() as int);
        }
    }
}

/// The mapping of the first `n` pairs depends on those pairs alone.
pub proof fn lemma_table_of_prefix(a: Seq<(String, String)>, b: Seq<(String, String)>, n: int)
    requires
        0 <= n <= a.len() <= b.len(),
        forall|k: int| 0 <= k < n ==> a[k] == b[k],
    ensures
        table_of(a, n) == table_of(b, n),
    decreases n,
{
    if n > 0 {
        lemma_table_of_prefix(a, b, n - 1);
    }
}

impl MacroLookup for Defines {
    open spec fn table(&self) -> Map<Seq<char>, Seq<char>> {
        table_of(self.pairs@, self.pairs@.len() as int)
    }

    fn lookup(&self, name: &str) -> (r: Option<String>) {
        let key = chars_of(name);
        let mut found: Option<String> = None;
        let mut i: usize = 0;
        while i < self.pairs.len()
            invariant
                i <= self.pairs@.len(),
                key@ == name@,
                match found {
                    Some(v) => table_of(self.pairs@, i as int).contains_key(name@) && table_of(
                        self.pairs@,
                        i as int,
                    )[name@] == v@,
                    None => !table_of(self.pairs@, i as int).contains_key(name@),
                },
            decreases self.pairs@.len() - i,
        {
            if same_text(&key, self.pairs[i].0.as_str()) {
                found = Some(self.pairs[i].1.clone());
            }
            i += 1;
        }
        found
    }
}

/// How many characters stand from index `j` on before the next `)` or `$`,
/// or the end of the text.
pub open spec fn name_run(s: Seq<char>, j: int) -> nat
    decreases s.len() - j,
{
    if 0 <= j < s.len() && s[j] != ')' && s[j] != '$' {
        1 + name_run(s, j + 1)
    } else {
        0
    }
}

/// Where the name of a macro that opens at `i` ends.
pub open spec fn name_end(s: Seq<char>, i: int) -> int {
    i + 2 + name_run(s, i + 2)
}

/// Whether a macro token `$(name)` starts at index `i`: a `$`, directly
/// followed by `(`, and a `)` before any further `$`.
pub open spec fn macro_at(s: Seq<char>, i: int) -> bool {
    &&& 0 <= i
    &&& i + 1 < s.len()
    &&& s[i] == '$'
    &&& s[i + 1] == '('
    &&& name_end(s, i) < s.len()
    &&& s[name_end(s, i)] == ')'
}

/// The name of the macro token that starts at `i`.
pub open spec fn macro_name(s: Seq<char>, i: int) -> Seq<char> {
    s.subrange(i + 2, name_end(s, i))
}

/// What a macro name stands for: its value, or nothing where it has none.
pub open spec fn value_of(table: Map<Seq<char>, Seq<char>>, name: Seq<char>) -> Seq<char> {
    if table.contains_key(name) {
        table[name]
    } else {
        Seq::empty()
    }
}

/// The text `s[i..]` with each macro token replaced by its value; every
/// other character, a `$` that opens no token too, stands as it is.
pub open spec fn expand(s: Seq<char>, table: Map<Seq<char>, Seq<char>>, i: int) -> Seq<char>
    decreases s.len() - i,
{
    if i < 0 || i >= s.len() {
        Seq::empty()
    } else if macro_at(s, i) {
        value_of(table, macro_name(s, i)) + expand(s, table, name_end(s, i) + 1)
    } else {
        seq![s[i]] + expand(s, table, i + 1)
    }
}

/// Where the name of a macro ends: within the text, on the first `)` or
/// `$` behind the `(`.
pub proof fn lemma_name_end(s: Seq<char>, i: int)
    requires
        0 <= i,
        i + 2 <= s.len(),
    ensures
        i + 2 <= name_end(s, i) <= s.len(),
        forall|k: int| i + 2 <= k < name_end(s, i) ==> s[k] != ')' && s[k] != '$',
        name_end(s, i) < s.len() ==> s[name_end(s, i)] == ')' || s[name_end(s, i)] == '$',
{
    lemma_name_run(s, i + 2);
}

/// A run of name characters ends within the text, on the first `)` or `$`.
pub proof fn lemma_name_run(s: Seq<char>, j: int)
    requires
        0 <= j <= s.len(),
    ensures
        j + name_run(s, j) <= s.len(),
        forall|k: int| j <= k < j + name_run(s, j) ==> s[k] != ')' && s[k] != '$',
        j + name_run(s, j) < s.len() ==> s[j + name_run(s, j)] == ')' || s[j + name_run(s, j)]
            == '$',
    decreases s.len() - j,
{
    if j < s.len() && s[j] != ')' && s[j] != '$' {
        lemma_name_run(s, j + 1);
    }
}

/// Index of the next `)` or `$` at or after `j`, or the length.
fn find_name_end(s: &Vec<char>, j: usize) -> (r: usize)
    requires
        j <= s@.len(),
    ensures
        r == j + name_run(s@, j as int),
        j <= r <= s@.len(),
{
    let mut k: usize = j;
    while k < s.len() && s[k] != ')' && s[k] != '$'
        invariant
            j <= k <= s@.len(),
            k + name_run(s@, k as int) == j + name_run(s@, j as int),
        decreases s@.len() - k,
    {
        k += 1;
    }
    k
}

/// Macro substitution on a line given as characters.
pub fn expand_chars<L: MacroLookup>(s: &Vec<char>, lookup: &L) -> (out: Vec<char>)
    ensures
        out@ == expand(s@, lookup.table(), 0),
{
    let mut out: Vec<char> = Vec::new();
    let mut i: usize = 0;
    while i < s.len()
        invariant
            i <= s@.len(),
            out@ + expand(s@, lookup.table(), i as int) == expand(s@, lookup.table(), 0),
        decreases s@.len() - i,
    {
        let ghost before = out@;
        let mut next: usize = i + 1;
        let mut is_macro: bool = false;
        if s[i] == '$' && i + 1 < s.len() && s[i + 1] == '(' {
            let x: usize = find_name_end(s, i + 2);
            if x < s.len() && s[x] == ')' {
                is_macro = true;
                next = x + 1;
                let name = string_of_range(s, i + 2, x);
                match lookup.lookup(name.as_str()) {
                    Some(v) => {
                        let mut vc = chars_of(v.as_str());
                        out.append(&mut vc);
                    },
                    None => {},
                }
            }
        }
        if !is_macro {
            out.push(s[i]);
        }
        assert(out@ + expand(s@, lookup.table(), next as int) =~= before + expand(
            s@,
            lookup.table(),
            i as int,
        ));
        i = next;
    }
    out
}

/// Replaces each macro token `$(name)` of `line` by the value that `lookup`
/// gives for `name`, or by nothing where it gives none.
pub fn replace_vars<L: MacroLookup>(line: &str, lookup: &L) -> (out: String)
    ensures
        out@ == expand(line@, lookup.table(), 0),
{
    let s = chars_of(line);
    let r = expand_chars(&s, lookup);
    string_of(&r)
}

/// The words of `s[i..]`: its maximal runs of characters that are no white
/// space, in order.
pub open spec fn words(s: Seq<char>, i: int) -> Seq<Seq<char>>
    decreases s.len() - i,
    via words_decreases
{
    let a = skip_space(s, i);
    if i < 0 || a >= s.len() {
        Seq::empty()
    } else {
        let b = skip_word(s, a);
        seq![s.subrange(a, b)] + words(s, b)
    }
}

#[via_fn]
proof fn words_decreases(s: Seq<char>, i: int) {
    let a = skip_space(s, i);
    if 0 <= i && a < s.len() {
        lemma_skip_space(s, i);
        lemma_skip_word(s, a);
    }
}

/// How many characters stand from index `j` on before the next `=`.
pub open spec fn key_run(t: Seq<char>, j: int) -> nat
    decreases t.len() - j,
{
    if 0 <= j < t.len() && t[j] != '=' {
        1 + key_run(t, j + 1)
    } else {
        0
    }
}

/// The name of a field: what stands before the first `=` of the word; none
/// where the word holds no `=`.
pub open spec fn field_name(t: Seq<char>) -> Option<Seq<char>> {
    let k = key_run(t, 0) as int;
    if k < t.len() {
        Some(t.subrange(0, k))
    } else {
        None
    }
}

/// The value of a field: what stands after the first `=` of the word, or
/// the whole word where it holds no `=`.
pub open spec fn field_value(t: Seq<char>) -> Seq<char> {
    let k = key_run(t, 0) as int;
    if k < t.len() {
        t.subrange(k + 1, t.len() as int)
    } else {
        t
    }
}

/// The value of the last of `fields` that has the name `name`.
pub open spec fn last_value(fields: Seq<Seq<char>>, name: Option<Seq<char>>) -> Option<Seq<char>>
    decreases fields.len(),
{
    if fields.len() == 0 {
        None
    } else if field_name(fields.last()) == name {
        Some(field_value(fields.last()))
    } else {
        last_value(fields.drop_last(), name)
    }
}

/// The fields of an entry, each with the value that was written last.
pub struct FieldsView {
    pub path: Option<Seq<char>>,
    pub target: Option<Seq<char>>,
    pub attr: FsAttrView,
    pub chash: Option<Seq<char>>,
    pub cname: Option<Seq<char>>,
}

/// The fields that the words of `s` give. A word without `=` is the content
/// name; a name that is not known is passed over.
pub open spec fn fields_of(s: Seq<char>) -> FieldsView {
    let w = words(s, 0);
    FieldsView {
        path: last_value(w, Some("path"@)),
        target: last_value(w, Some("target"@)),
        attr: FsAttrView {
            owner: last_value(w, Some("owner"@)),
            group: last_value(w, Some("group"@)),
            mode: last_value(w, Some("mode"@)),
        },
        chash: last_value(w, Some("chash"@)),
        cname: last_value(w, None),
    }
}

/// The six field names are six different words.
pub proof fn lemma_field_names_differ()
    ensures
        "path"@ != "target"@,
        "path"@ != "owner"@,
        "path"@ != "group"@,
        "path"@ != "mode"@,
        "path"@ != "chash"@,
        "target"@ != "owner"@,
        "target"@ != "group"@,
        "target"@ != "mode"@,
        "target"@ != "chash"@,
        "owner"@ != "group"@,
        "owner"@ != "mode"@,
        "owner"@ != "chash"@,
        "group"@ != "mode"@,
        "group"@ != "chash"@,
        "mode"@ != "chash"@,
{
    reveal_strlit("path");
    reveal_strlit("target");
    reveal_strlit("owner");
    reveal_strlit("group");
    reveal_strlit("mode");
    reveal_strlit("chash");
    assert("target"@.len() == 6);
    assert("owner"@[0] == 'o' && "owner"@.len() == 5);
    assert("group"@[0] == 'g' && "group"@.len() == 5);
    assert("mode"@[0] == 'm' && "mode"@.len() == 4);
    assert("chash"@[0] == 'c' && "chash"@.len() == 5);
}

/// Index of the first `=` of `s[from..to]`, or `to`.
fn find_equals(s: &Vec<char>, from: usize, to: usize) -> (r: usize)
    requires
        from <= to <= s@.len(),
    ensures
        r == from + key_run(s@.subrange(from as int, to as int), 0),
        from <= r <= to,
{
    let ghost t = s@.subrange(from as int, to as int);
    let mut k: usize = from;
    while k < to && s[k] != '='
        invariant
            from <= k <= to <= s@.len(),
            t == s@.subrange(from as int, to as int),
            (k - from) + key_run(t, k - from) == key_run(t, 0),
        decreases to - k,
    {
        k += 1;
    }
    k
}

/// The fields of an entry, read from characters.
pub fn parse_fields(s: &Vec<char>) -> (r: (
    Option<String>,
    Option<String>,
    FsAttr,
    Option<String>,
    Option<String>,
))
    ensures
        opt_text(r.0) == fields_of(s@).path,
        opt_text(r.1) == fields_of(s@).target,
        r.2@ == fields_of(s@).attr,
        opt_text(r.3) == fields_of(s@).chash,
        opt_text(r.4) == fields_of(s@).cname,
{
    let mut path: Option<String> = None;
    let mut target: Option<String> = None;
    let mut owner: Option<String> = None;
    let mut group: Option<String> = None;
    let mut mode: Option<String> = None;
    let mut chash: Option<String> = None;
    let mut cname: Option<String> = None;
    let ghost mut done: Seq<Seq<char>> = Seq::empty();
    let mut i: usize = 0;
    let mut a: usize = find_non_space(s, 0);
    while a < s.len()
        invariant
            i <= a <= s@.len(),
            a == skip_space(s@, i as int),
            done + words(s@, i as int) == words(s@, 0),
            opt_text(path) == last_value(done, Some("path"@)),
            opt_text(target) == last_value(done, Some("target"@)),
            opt_text(owner) == last_value(done, Some("owner"@)),
            opt_text(group) == last_value(done, Some("group"@)),
            opt_text(mode) == last_value(done, Some("mode"@)),
            opt_text(chash) == last_value(done, Some("chash"@)),
            opt_text(cname) == last_value(done, None),
        decreases s@.len() - i,
    {
        let b: usize = find_space(s, a);
        let e: usize = find_equals(s, a, b);
        let ghost word = s@.subrange(a as int, b as int);
        proof {
            lemma_skip_space(s@, i as int);
            assert(done.push(word).drop_last() =~= done);
            lemma_field_names_differ();
        }
        if e < b {
            let key = copy_range(s, a, e);
            let value = string_of_range(s, e + 1, b);
            proof {
                assert(field_name(word) == Some(key@));
            }
            if same_text(&key, "path") {
                path = Some(value);
            } else if same_text(&key, "target") {
                target = Some(value);
            } else if same_text(&key, "owner") {
                owner = Some(value);
            } else if same_text(&key, "group") {
                group = Some(value);
            } else if same_text(&key, "mode") {
                mode = Some(value);
            } else if same_text(&key, "chash") {
                chash = Some(value);
            }
        } else {
            let value = string_of_range(s, a, b);
            cname = Some(value);
        }
        proof {
            done = done.push(word);
        }
        i = b;
        a = find_non_space(s, b);
    }
    (path, target, FsAttr { owner, group, mode }, chash, cname)
}

/// The fields of an entry: path, link target, attributes, content hash and
/// content name, in this order.
pub fn parse_file_fields(input: &str) -> (r: (
    Option<String>,
    Option<String>,
    FsAttr,
    Option<String>,
    Option<String>,
))
    ensures
        opt_text(r.0) == fields_of(input@).path,
        opt_text(r.1) == fields_of(input@).target,
        r.2@ == fields_of(input@).attr,
        opt_text(r.3) == fields_of(input@).chash,
        opt_text(r.4) == fields_of(input@).cname,
{
    let s = chars_of(input);
    parse_fields(&s)
}

/// A macro definition written as `NAME=VALUE`: the name and the value, cut
/// at the first `=`; none where there is no `=`.
pub fn parse_define(arg: &str) -> (r: Option<(String, String)>)
    ensures
        match r {
            Some((name, value)) => field_name(arg@) == Some(name@) && field_value(arg@) == value@,
            None => field_name(arg@) is None,
        },
{
    let s = chars_of(arg);
    let e: usize = find_equals(&s, 0, s.len());
    assert(s@.subrange(0, s@.len() as int) =~= s@);
    if e < s.len() {
        Some((string_of_range(&s, 0, e), string_of_range(&s, e + 1, s.len())))
    } else {
        None
    }
}

/// The keyword of a line: what stands before its first white space.
pub open spec fn keyword_of(s: Seq<char>) -> Seq<char> {
    s.subrange(0, skip_word(s, 0))
}

/// What follows the keyword and the white space behind it.
pub open spec fn remainder_of(s: Seq<char>) -> Seq<char> {
    s.subrange(skip_space(s, skip_word(s, 0)), s.len() as int)
}

/// The entry that a line states. A line that states none, for want of a
/// known keyword, of the closing `>` of an include or of a field that the
/// keyword asks for, is an unknown entry that holds the line.
pub open spec fn classify(s: Seq<char>) -> EntryView {
    let kw = keyword_of(s);
    let rest = remainder_of(s);
    let f = fields_of(rest);
    if kw == "<include"@ && rest.len() > 0 && rest.last() == '>' {
        EntryView::Include(rest.drop_last())
    } else if kw == "dir"@ && f.path is Some {
        EntryView::Dir { path: f.path->0, attr: f.attr }
    } else if kw == "file"@ && f.path is Some {
        EntryView::File { path: f.path->0, attr: f.attr, chash: f.chash, cname: f.cname }
    } else if kw == "link"@ && f.path is Some && f.target is Some {
        EntryView::Link { path: f.path->0, attr: f.attr, target: f.target->0 }
    } else {
        EntryView::Unknown(s)
    }
}

/// The entry that a line states, read from characters.
pub fn classify_chars(s: &Vec<char>) -> (e: Entry)
    ensures
        e@ == classify(s@),
{
    let k: usize = find_space(s, 0);
    let r: usize = find_non_space(s, k);
    let kw = copy_range(s, 0, k);
    let rest = copy_range(s, r, s.len());
    let n: usize = rest.len();
    if same_text(&kw, "<include") {
        if n != 0 && rest[n - 1] == '>' {
            let name = string_of_range(&rest, 0, n - 1);
            return Entry::Include(name);
        }
    } else if same_text(&kw, "dir") {
        let (path, _target, attr, _chash, _cname) = parse_fields(&rest);
        if let Some(path) = path {
            proof {
                lemma_keywords_differ();
            }
            return Entry::Dir(Dir { path, attr });
        }
    } else if same_text(&kw, "file") {
        let (path, _target, attr, chash, cname) = parse_fields(&rest);
        if let Some(path) = path {
            proof {
                lemma_keywords_differ();
            }
            return Entry::File(File { path, attr, chash, cname });
        }
    } else if same_text(&kw, "link") {
        let (path, target, attr, _chash, _cname) = parse_fields(&rest);
        if let Some(path) = path {
            if let Some(target) = target {
                proof {
                    lemma_keywords_differ();
                }
                return Entry::Link(Link { path, attr, target });
            }
        }
    }
    proof {
        lemma_keywords_differ();
    }
    Entry::Unknown(string_of(s))
}

/// The four keywords are four different words.
pub proof fn lemma_keywords_differ()
    ensures
        "<include"@ != "dir"@,
        "<include"@ != "file"@,
        "<include"@ != "link"@,
        "dir"@ != "file"@,
        "dir"@ != "link"@,
        "file"@ != "link"@,
{
    reveal_strlit("<include");
    reveal_strlit("dir");
    reveal_strlit("file");
    reveal_strlit("link");
    assert("dir"@.len() == 3);
    assert("file"@[0] == 'f');
    assert("link"@[0] == 'l');
}

/// The entry that the line `input` states.
pub fn parse_entry(input: &str) -> (e: Entry)
    ensures
        e@ == classify(input@),
{
    let s = chars_of(input);
    classify_chars(&s)
}

/// The characters of each line.
pub open spec fn texts(lines: Seq<String>) -> Seq<Seq<char>> {
    Seq::new(lines.len(), |i: int| lines[i]@)
}

/// A line that is passed over: an empty line, or a comment.
pub open spec fn is_ignored(l: Seq<char>) -> bool {
    l.len() == 0 || l[0] == '#'
}

/// How many lines in a row from `pos` on are passed over.
pub open spec fn ignored_run(lines: Seq<Seq<char>>, pos: int) -> nat
    decreases lines.len() - pos,
{
    if 0 <= pos < lines.len() && is_ignored(lines[pos]) {
        1 + ignored_run(lines, pos + 1)
    } else {
        0
    }
}

/// The continuation marker: a space and a backslash at the end of a line.
pub open spec fn has_marker(l: Seq<char>) -> bool {
    l.len() >= 2 && l[l.len() - 2] == ' ' && l[l.len() - 1] == '\\'
}

/// The line that begins as `acc` and is continued by the lines from `pos`
/// on, and how many of them it takes. Each marker loses its backslash and
/// has the next line put behind it; a marker on the last line only loses
/// its backslash.
pub open spec fn joined(acc: Seq<char>, lines: Seq<Seq<char>>, pos: int) -> (Seq<char>, nat)
    decreases lines.len() - pos,
{
    if !has_marker(acc) {
        (acc, 0)
    } else if pos < 0 || pos >= lines.len() {
        (acc.drop_last(), 0)
    } else {
        let r = joined(acc.drop_last() + lines[pos], lines, pos + 1);
        (r.0, 1 + r.1)
    }
}

/// Where the next line that is not passed over stands.
pub open spec fn line_start(lines: Seq<Seq<char>>, pos: int) -> int {
    pos + ignored_run(lines, pos)
}

/// The next full line at or after `pos`, with the position behind it; none
/// where only lines to pass over are left.
pub open spec fn full_line(lines: Seq<Seq<char>>, pos: int) -> Option<(Seq<char>, int)> {
    let start = line_start(lines, pos);
    if pos < 0 || start >= lines.len() {
        None
    } else {
        let j = joined(lines[start], lines, start + 1);
        Some((j.0, start + 1 + j.1))
    }
}

/// A continued line takes lines that exist, and begins as its first line
/// does.
pub proof fn lemma_joined(acc: Seq<char>, lines: Seq<Seq<char>>, pos: int)
    requires
        0 <= pos <= lines.len(),
    ensures
        pos + joined(acc, lines, pos).1 <= lines.len(),
        !is_ignored(acc) ==> !is_ignored(joined(acc, lines, pos).0),
        !has_marker(joined(acc, lines, pos).0),
    decreases lines.len() - pos,
{
    if has_marker(acc) && pos < lines.len() {
        lemma_joined(acc.drop_last() + lines[pos], lines, pos + 1);
    }
}

/// A run of lines to pass over ends within the lines, on the first line
/// that is not passed over.
pub proof fn lemma_ignored_run(lines: Seq<Seq<char>>, pos: int)
    requires
        0 <= pos <= lines.len(),
    ensures
        line_start(lines, pos) <= lines.len(),
        line_start(lines, pos) < lines.len() ==> !is_ignored(lines[line_start(lines, pos)]),
        forall|k: int| pos <= k < line_start(lines, pos) ==> is_ignored(lines[k]),
    decreases lines.len() - pos,
{
    if pos < lines.len() && is_ignored(lines[pos]) {
        lemma_ignored_run(lines, pos + 1);
    }
}

/// No empty line and no comment is ever a full line: a full line is not
/// empty and does not begin with `#`. It ends behind `pos`, within the
/// lines, and every line between `pos` and its first line is one to pass
/// over.
pub proof fn lemma_full_line(lines: Seq<Seq<char>>, pos: int)
    requires
        0 <= pos,
    ensures
        match full_line(lines, pos) {
            Some((l, next)) => {
                &&& !is_ignored(l)
                &&& !has_marker(l)
                &&& pos < next <= lines.len()
                &&& forall|k: int| pos <= k < line_start(lines, pos) ==> is_ignored(lines[k])
            },
            None => forall|k: int| pos <= k < lines.len() ==> is_ignored(lines[k]),
        },
{
    if pos <= lines.len() {
        lemma_ignored_run(lines, pos);
        let start = line_start(lines, pos);
        if start < lines.len() {
            lemma_joined(lines[start], lines, start + 1);
        }
    }
}

fn ends_with_marker(l: &Vec<char>) -> (r: bool)
    ensures
        r == has_marker(l@),
{
    let n: usize = l.len();
    n >= 2 && l[n - 2] == ' ' && l[n - 1] == '\\'
}

/// The next full line of `lines` at or after `*pos`, as characters; `*pos`
/// moves behind the lines that were read.
pub fn next_line(lines: &Vec<String>, pos: &mut usize) -> (r: Option<Vec<char>>)
    ensures
        match r {
            Some(l) => full_line(texts(lines@), *old(pos) as int) == Some(
                (l@, *final(pos) as int),
            ),
            None => full_line(texts(lines@), *old(pos) as int) is None && *final(pos)
                == line_start(texts(lines@), *old(pos) as int),
        },
{
    let ghost all = texts(lines@);
    let ghost begin = *pos as int;
    while *pos < lines.len() && (lines[*pos].as_str().unicode_len() == 0
        || lines[*pos].as_str().get_char(0) == '#')
        invariant
            all == texts(lines@),
            begin <= *pos,
            line_start(all, *pos as int) == line_start(all, begin),
        decreases lines@.len() - *pos,
    {
        *pos += 1;
    }
    if *pos >= lines.len() {
        return None;
    }
    let ghost start = *pos as int;
    let mut line: Vec<char> = chars_of(lines[*pos].as_str());
    *pos += 1;
    while ends_with_marker(&line)
        invariant
            all == texts(lines@),
            start < *pos <= lines@.len(),
            joined(line@, all, *pos as int).0 == joined(all[start], all, start + 1).0,
            *pos + joined(line@, all, *pos as int).1 == start + 1 + joined(
                all[start],
                all,
                start + 1,
            ).1,
        decreases 2 * (lines@.len() - *pos) + (if has_marker(line@) { 1int } else { 0int }),
    {
        line.pop();
        if *pos < lines.len() {
            let mut more: Vec<char> = chars_of(lines[*pos].as_str());
            line.append(&mut more);
            *pos += 1;
        }
    }
    Some(line)
}

/// The next full line of `lines` at or after `*pos`: lines that are empty
/// or begin with `#` are passed over, and a line that ends in a space and a
/// backslash is continued by the line after it. `*pos` moves behind the
/// lines that were read.
pub fn get_full_line(lines: &Vec<String>, pos: &mut usize) -> (r: Option<String>)
    ensures
        match r {
            Some(l) => full_line(texts(lines@), *old(pos) as int) == Some(
                (l@, *final(pos) as int),
            ),
            None => full_line(texts(lines@), *old(pos) as int) is None && *final(pos)
                == line_start(texts(lines@), *old(pos) as int),
        },
        r matches Some(l) ==> l@.len() > 0 && l@[0] != '#',
{
    proof {
        lemma_full_line(texts(lines@), *pos as int);
    }
    match next_line(lines, pos) {
        Some(l) => Some(string_of(&l)),
        None => None,
    }
}

/// What a full line becomes before it is classified: its macros are
/// replaced, then white space is taken off both ends.
pub open spec fn prepared(line: Seq<char>, table: Map<Seq<char>, Seq<char>>) -> Seq<char> {
    trim(expand(line, table, 0))
}

/// The next entry at or after `pos`, with the position behind it. A full
/// line that is empty or a comment once prepared gives no entry.
pub open spec fn next_entry(
    lines: Seq<Seq<char>>,
    pos: int,
    table: Map<Seq<char>, Seq<char>>,
) -> Option<(EntryView, int)>
    decreases lines.len() - pos,
    via next_entry_decreases
{
    match full_line(lines, pos) {
        None => None,
        Some((line, next)) => {
            let t = prepared(line, table);
            if is_ignored(t) {
                next_entry(lines, next, table)
            } else {
                Some((classify(t), next))
            }
        },
    }
}

#[via_fn]
proof fn next_entry_decreases(lines: Seq<Seq<char>>, pos: int, table: Map<Seq<char>, Seq<char>>) {
    if pos >= 0 {
        lemma_full_line(lines, pos);
    }
}

/// An entry is found behind `pos` and within the lines, and is the
/// classification of a text that is neither empty nor a comment.
pub proof fn lemma_next_entry(lines: Seq<Seq<char>>, pos: int, table: Map<Seq<char>, Seq<char>>)
    requires
        0 <= pos,
    ensures
        next_entry(lines, pos, table) matches Some((e, next)) ==> pos < next <= lines.len()
            && exists|t: Seq<char>| !is_ignored(t) && e == classify(t),
    decreases lines.len() - pos,
{
    lemma_full_line(lines, pos);
    match full_line(lines, pos) {
        None => {},
        Some((line, next)) => {
            let t = prepared(line, table);
            if is_ignored(t) {
                lemma_next_entry(lines, next, table);
            }
        },
    }
}

/// The next entry of `lines` at or after `*pos`; `*pos` moves behind the
/// lines that were read.
pub fn read_entry<L: MacroLookup>(lines: &Vec<String>, pos: &mut usize, lookup: &L) -> (r: Option<
    Entry,
>)
    ensures
        *old(pos) <= *final(pos),
        match r {
            Some(e) => next_entry(texts(lines@), *old(pos) as int, lookup.table()) == Some(
                (e@, *final(pos) as int),
            ),
            None => next_entry(texts(lines@), *old(pos) as int, lookup.table()) is None
                && next_entry(texts(lines@), *final(pos) as int, lookup.table()) is None,
        },
{
    let ghost all = texts(lines@);
    let ghost begin = *pos as int;
    loop
        invariant
            all == texts(lines@),
            begin == *old(pos),
            begin <= *pos,
            next_entry(all, *pos as int, lookup.table()) == next_entry(all, begin, lookup.table()),
        decreases lines@.len() - *pos,
    {
        proof {
            lemma_full_line(all, *pos as int);
        }
        match next_line(lines, pos) {
            None => {
                return None;
            },
            Some(line) => {
                let replaced = expand_chars(&line, lookup);
                let t = trimmed(&replaced);
                if t.len() != 0 && t[0] != '#' {
                    return Some(classify_chars(&t));
                }
            },
        }
    }
}

/// The name of the first macro token at or after index `i`.
pub open spec fn first_macro(s: Seq<char>, i: int) -> Option<Seq<char>>
    decreases s.len() - i,
{
    if i < 0 || i >= s.len() {
        None
    } else if macro_at(s, i) {
        Some(macro_name(s, i))
    } else {
        first_macro(s, i + 1)
    }
}

/// A text without macro tokens is left as it is, whatever the macros are
/// defined as.
pub proof fn lemma_expand_plain(s: Seq<char>, table: Map<Seq<char>, Seq<char>>, i: int)
    requires
        0 <= i <= s.len(),
        first_macro(s, i) is None,
    ensures
        expand(s, table, i) == s.subrange(i, s.len() as int),
    decreases s.len() - i,
{
    if i < s.len() {
        lemma_expand_plain(s, table, i + 1);
    }
}

/// A macro token is replaced by the value of its name, or by nothing where
/// the name has no value; the text behind its `)` follows.
pub proof fn lemma_expand_token(s: Seq<char>, table: Map<Seq<char>, Seq<char>>, i: int)
    requires
        macro_at(s, i),
    ensures
        table.contains_key(macro_name(s, i)) ==> expand(s, table, i) == table[macro_name(s, i)]
            + expand(s, table, name_end(s, i) + 1),
        !table.contains_key(macro_name(s, i)) ==> expand(s, table, i) == expand(
            s,
            table,
            name_end(s, i) + 1,
        ),
{
    assert(Seq::<char>::empty() + expand(s, table, name_end(s, i) + 1) =~= expand(
        s,
        table,
        name_end(s, i) + 1,
    ));
}

/// A character that opens no macro token stands as it is: a `$` that is
/// not followed by `(`, or whose `(` is not closed before the next `$`,
/// too.
pub proof fn lemma_expand_other(s: Seq<char>, table: Map<Seq<char>, Seq<char>>, i: int)
    requires
        0 <= i < s.len(),
        !macro_at(s, i),
    ensures
        expand(s, table, i) == seq![s[i]] + expand(s, table, i + 1),
{
}

/// A text that holds no `)` holds no macro token.
pub proof fn lemma_no_token(s: Seq<char>, i: int)
    requires
        0 <= i <= s.len(),
        forall|k: int| i <= k < s.len() ==> s[k] != ')',
    ensures
        first_macro(s, i) is None,
    decreases s.len() - i,
{
    if i < s.len() {
        if i + 2 <= s.len() {
            lemma_name_end(s, i);
        }
        lemma_no_token(s, i + 1);
    }
}

/// A `$(` that is never closed is no macro: a text that holds no `)` is
/// left as it is, whatever the macros are defined as.
pub proof fn lemma_unclosed_is_kept(s: Seq<char>, table: Map<Seq<char>, Seq<char>>)
    requires
        forall|k: int| 0 <= k < s.len() ==> s[k] != ')',
    ensures
        expand(s, table, 0) == s,
{
    lemma_no_token(s, 0);
    lemma_expand_plain(s, table, 0);
}

/// The name of the first macro token in the full lines at or after `pos`.
pub open spec fn first_unresolved(lines: Seq<Seq<char>>, pos: int) -> Option<Seq<char>>
    decreases lines.len() - pos,
    via first_unresolved_decreases
{
    match full_line(lines, pos) {
        None => None,
        Some((line, next)) => match first_macro(line, 0) {
            Some(name) => Some(name),
            None => first_unresolved(lines, next),
        },
    }
}

#[via_fn]
proof fn first_unresolved_decreases(lines: Seq<Seq<char>>, pos: int) {
    if pos >= 0 {
        lemma_full_line(lines, pos);
    }
}

/// The name of the first macro token of `s`, as a string.
pub fn find_macro(s: &Vec<char>) -> (r: Option<String>)
    ensures
        opt_text(r) == first_macro(s@, 0),
{
    let mut i: usize = 0;
    while i < s.len()
        invariant
            i <= s@.len(),
            first_macro(s@, i as int) == first_macro(s@, 0),
        decreases s@.len() - i,
    {
        if s[i] == '$' && i + 1 < s.len() && s[i + 1] == '(' {
            let x: usize = find_name_end(s, i + 2);
            if x < s.len() && s[x] == ')' {
                return Some(string_of_range(s, i + 2, x));
            }
        }
        i += 1;
    }
    None
}

/// The name of the first macro token in the full lines of a manifest; none
/// where the manifest uses no macro.
pub fn find_unresolved(lines: &Vec<String>) -> (r: Option<String>)
    ensures
        opt_text(r) == first_unresolved(texts(lines@), 0),
{
    let ghost all = texts(lines@);
    let mut pos: usize = 0;
    loop
        invariant
            all == texts(lines@),
            first_unresolved(all, pos as int) == first_unresolved(all, 0),
        decreases lines@.len() - pos,
    {
        proof {
            lemma_full_line(all, pos as int);
        }
        match next_line(lines, &mut pos) {
            None => {
                return None;
            },
            Some(line) => {
                match find_macro(&line) {
                    Some(name) => {
                        return Some(name);
                    },
                    None => {},
                }
            },
        }
    }
}

/// The entries of the lines at or after `pos`, in order.
pub open spec fn entries(
    lines: Seq<Seq<char>>,
    pos: int,
    table: Map<Seq<char>, Seq<char>>,
) -> Seq<EntryView>
    decreases lines.len() - pos,
    via entries_decreases
{
    match next_entry(lines, pos, table) {
        None => Seq::empty(),
        Some((e, next)) => seq![e] + entries(lines, next, table),
    }
}

#[via_fn]
proof fn entries_decreases(lines: Seq<Seq<char>>, pos: int, table: Map<Seq<char>, Seq<char>>) {
    if pos >= 0 {
        lemma_next_entry(lines, pos, table);
    }
}

/// The entries at or after `pos` are what the next full line gives, if it
/// gives anything, and then the entries behind that line.
pub proof fn lemma_entries_by_line(
    lines: Seq<Seq<char>>,
    pos: int,
    table: Map<Seq<char>, Seq<char>>,
)
    requires
        0 <= pos,
    ensures
        entries(lines, pos, table) == match full_line(lines, pos) {
            None => Seq::<EntryView>::empty(),
            Some((line, next)) => if is_ignored(prepared(line, table)) {
                entries(lines, next, table)
            } else {
                seq![classify(prepared(line, table))] + entries(lines, next, table)
            },
        },
{
    lemma_full_line(lines, pos);
    match full_line(lines, pos) {
        None => {},
        Some((line, next)) => {
            if is_ignored(prepared(line, table)) {
                assert(next_entry(lines, pos, table) == next_entry(lines, next, table));
            }
        },
    }
}

/// Whether the line that begins as `acc` and is continued from `pos` on
/// ends for want of lines, with its last marker left open.
pub open spec fn cut_short(acc: Seq<char>, lines: Seq<Seq<char>>, pos: int) -> bool
    decreases lines.len() - pos,
{
    if !has_marker(acc) {
        false
    } else if pos < 0 || pos >= lines.len() {
        true
    } else {
        cut_short(acc.drop_last() + lines[pos], lines, pos + 1)
    }
}

/// Whether the position `k` lies between the full lines that are read from
/// `pos` on: among lines that are passed over, right before the first line
/// of a full line, or behind the last line of one that ends without an
/// open marker; not within a continued line.
pub open spec fn between_lines(lines: Seq<Seq<char>>, pos: int, k: int) -> bool
    decreases lines.len() - pos,
    via between_lines_decreases
{
    let start = line_start(lines, pos);
    if k < pos || pos < 0 {
        false
    } else if k <= start {
        true
    } else {
        match full_line(lines, pos) {
            None => false,
            Some((_, next)) => !cut_short(lines[start], lines, start + 1) && between_lines(
                lines,
                next,
                k,
            ),
        }
    }
}

#[via_fn]
proof fn between_lines_decreases(lines: Seq<Seq<char>>, pos: int, k: int) {
    if pos >= 0 {
        lemma_full_line(lines, pos);
    }
}

/// Behind an inserted line, the lines are read as before, one position
/// further on.
proof fn lemma_shifted_line(
    lines: Seq<Seq<char>>,
    after: Seq<Seq<char>>,
    k: int,
    acc: Seq<char>,
    p: int,
)
    requires
        0 <= k <= p <= lines.len(),
        after.len() == lines.len() + 1,
        forall|i: int| k <= i < lines.len() ==> after[i + 1] == lines[i],
    ensures
        ignored_run(after, p + 1) == ignored_run(lines, p),
        joined(acc, after, p + 1) == joined(acc, lines, p),
    decreases lines.len() - p,
{
    if p < lines.len() {
        lemma_shifted_line(lines, after, k, acc.drop_last() + lines[p], p + 1);
    }
}

/// Behind an inserted line, the entries are as before.
proof fn lemma_shifted_entries(
    lines: Seq<Seq<char>>,
    after: Seq<Seq<char>>,
    k: int,
    p: int,
    table: Map<Seq<char>, Seq<char>>,
)
    requires
        0 <= k <= p <= lines.len(),
        after.len() == lines.len() + 1,
        forall|i: int| k <= i < lines.len() ==> after[i + 1] == lines[i],
    ensures
        entries(after, p + 1, table) == entries(lines, p, table),
    decreases lines.len() - p,
{
    lemma_entries_by_line(lines, p, table);
    lemma_entries_by_line(after, p + 1, table);
    lemma_full_line(lines, p);
    lemma_shifted_line(lines, after, k, Seq::empty(), p);
    let start = line_start(lines, p);
    if start < lines.len() {
        lemma_shifted_line(lines, after, k, lines[start], start + 1);
        let next = start + 1 + joined(lines[start], lines, start + 1).1;
        lemma_shifted_entries(lines, after, k, next, table);
    }
}

/// Before an inserted line that is passed over, the lines to pass over
/// are as before, with the inserted line among them where they reach it.
proof fn lemma_run_with_insert(lines: Seq<Seq<char>>, after: Seq<Seq<char>>, k: int, p: int)
    requires
        0 <= p <= k <= lines.len(),
        after.len() == lines.len() + 1,
        forall|i: int| 0 <= i < k ==> after[i] == lines[i],
        forall|i: int| k <= i < lines.len() ==> after[i + 1] == lines[i],
        is_ignored(after[k]),
    ensures
        line_start(lines, p) < k ==> line_start(after, p) == line_start(lines, p),
        line_start(lines, p) >= k ==> line_start(after, p) == line_start(lines, p) + 1,
    decreases k - p,
{
    if p < k {
        if is_ignored(lines[p]) {
            lemma_run_with_insert(lines, after, k, p + 1);
        }
    } else {
        lemma_shifted_line(lines, after, k, Seq::empty(), k);
    }
}

/// A continued line that ends before an inserted line, and not for want
/// of lines, is read as before.
proof fn lemma_joined_before_insert(
    lines: Seq<Seq<char>>,
    after: Seq<Seq<char>>,
    k: int,
    acc: Seq<char>,
    q: int,
)
    requires
        0 <= q <= k <= lines.len(),
        after.len() == lines.len() + 1,
        forall|i: int| 0 <= i < k ==> after[i] == lines[i],
        q + joined(acc, lines, q).1 <= k,
        !cut_short(acc, lines, q),
    ensures
        joined(acc, after, q) == joined(acc, lines, q),
    decreases lines.len() - q,
{
    if has_marker(acc) {
        lemma_joined_before_insert(lines, after, k, acc.drop_last() + lines[q], q + 1);
    }
}

/// The entries from `pos` on stay as they are when a line that is passed
/// over is inserted between full lines.
proof fn lemma_insert_from(
    lines: Seq<Seq<char>>,
    after: Seq<Seq<char>>,
    k: int,
    p: int,
    table: Map<Seq<char>, Seq<char>>,
)
    requires
        0 <= p <= k <= lines.len(),
        after.len() == lines.len() + 1,
        forall|i: int| 0 <= i < k ==> after[i] == lines[i],
        forall|i: int| k <= i < lines.len() ==> after[i + 1] == lines[i],
        is_ignored(after[k]),
        between_lines(lines, p, k),
    ensures
        entries(after, p, table) == entries(lines, p, table),
    decreases lines.len() - p,
{
    lemma_entries_by_line(lines, p, table);
    lemma_entries_by_line(after, p, table);
    lemma_full_line(lines, p);
    lemma_run_with_insert(lines, after, k, p);
    let start = line_start(lines, p);
    if k <= start {
        if start < lines.len() {
            lemma_shifted_line(lines, after, k, lines[start], start + 1);
            let next = start + 1 + joined(lines[start], lines, start + 1).1;
            lemma_shifted_entries(lines, after, k, next, table);
        }
    } else {
        let next = start + 1 + joined(lines[start], lines, start + 1).1;
        assert(between_lines(lines, next, k) && next <= k) by {
            reveal_with_fuel(between_lines, 2);
        }
        lemma_joined_before_insert(lines, after, k, lines[start], start + 1);
        lemma_insert_from(lines, after, k, next, table);
    }
}

/// Comments and empty lines give no entry: a manifest yields the same
/// entries, in the same order, when a line that is empty or begins with
/// `#` is inserted between its full lines.
pub proof fn lemma_ignored_line_gives_nothing(
    lines: Seq<Seq<char>>,
    k: int,
    line: Seq<char>,
    table: Map<Seq<char>, Seq<char>>,
)
    requires
        0 <= k <= lines.len(),
        is_ignored(line),
        between_lines(lines, 0, k),
    ensures
        entries(lines.insert(k, line), 0, table) == entries(lines, 0, table),
{
    lemma_insert_from(lines, lines.insert(k, line), k, 0, table);
}

/// A manifest without macro tokens yields the same entries whatever the
/// macros are defined as.
pub proof fn lemma_resolved_needs_no_table(
    lines: Seq<Seq<char>>,
    pos: int,
    one: Map<Seq<char>, Seq<char>>,
    other: Map<Seq<char>, Seq<char>>,
)
    requires
        0 <= pos,
        first_unresolved(lines, pos) is None,
    ensures
        entries(lines, pos, one) == entries(lines, pos, other),
    decreases lines.len() - pos,
{
    lemma_entries_by_line(lines, pos, one);
    lemma_entries_by_line(lines, pos, other);
    lemma_full_line(lines, pos);
    match full_line(lines, pos) {
        None => {},
        Some((line, next)) => {
            lemma_expand_plain(line, one, 0);
            lemma_expand_plain(line, other, 0);
            lemma_resolved_needs_no_table(lines, next, one, other);
        },
    }
}

/// Reads the entries of a manifest from its lines, one at a time.
pub struct Reader<L> {
    pub input: Vec<String>,
    pub pos: usize,
    pub lookup: L,
}

impl<L: MacroLookup> Reader<L> {
    /// A reader at the first of the lines `input`, with `lookup` as the
    /// source of macro values.
    pub fn new(input: Vec<String>, lookup: L) -> (r: Self)
        ensures
            r.input == input,
            r.pos == 0,
            r.lookup == lookup,
    {
        Reader { input, pos: 0, lookup }
    }

    /// The next entry and the position behind it, as `next` will find them.
    pub open spec fn peek(&self) -> Option<(EntryView, int)> {
        next_entry(texts(self.input@), self.pos as int, self.lookup.table())
    }

    /// The entries that the reader has yet to yield, in order.
    pub open spec fn remaining(&self) -> Seq<EntryView> {
        entries(texts(self.input@), self.pos as int, self.lookup.table())
    }

    /// The next entry of the manifest; none when the lines are used up, and
    /// then none ever after.
    pub fn next(&mut self) -> (r: Option<Entry>)
        ensures
            final(self).input == old(self).input,
            final(self).lookup == old(self).lookup,
            old(self).pos <= final(self).pos,
            match r {
                Some(e) => old(self).peek() == Some((e@, final(self).pos as int)) && old(
                    self,
                ).remaining() == seq![e@] + final(self).remaining(),
                None => old(self).peek() is None && final(self).peek() is None && old(
                    self,
                ).remaining().len() == 0,
            },
    {
        read_entry(&self.input, &mut self.pos, &self.lookup)
    }
}

} // verus!
