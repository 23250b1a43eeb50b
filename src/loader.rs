//! The include resolver: flattens a script whose directives name other
//! fragments into one self-contained body.
//!
//! Fragments are looked up by path in a [`ScriptTable`]. A directive's name is
//! taken relative to the directory of the fragment that holds it, with `.lua`
//! appended when the name lacks it. Resolution walks the fragments depth
//! first, in the order in which their directives appear. The body of each
//! distinct fragment is spliced in once, where it is first reached; a later
//! directive naming it is dropped. A fragment may not name the same target
//! twice, and no fragment may include one of its own ancestors.
use vstd::prelude::*;
use crate::directive::{
    Segment, Piece, segments, split_segments, slice_chars, text_of, has_no_directive,
    lemma_text_of_segments, line_closed, directives_end_lines, lemma_concat_no_directive,
    lemma_text_segments_clean,
};
use crate::text::{chars_of, string_of};
use vstd::string::StringExecFns;

verus! {

/// A table of fragments: each entry is a path and the text stored there.
pub type Table = Seq<(Seq<char>, Seq<char>)>;

pub open spec fn keys(tbl: Table) -> Seq<Seq<char>> {
    tbl.map_values(|e: (Seq<char>, Seq<char>)| e.0)
}

/// The index of the first entry at or after `i` whose path is `p`.
pub open spec fn find_from(tbl: Table, p: Seq<char>, i: int) -> Option<int>
    decreases tbl.len() - i,
{
    if i < 0 || i >= tbl.len() {
        None
    } else if tbl[i].0 == p {
        Some(i)
    } else {
        find_from(tbl, p, i + 1)
    }
}

/// The text stored under path `p`: that of the first entry with that path.
pub open spec fn lookup(tbl: Table, p: Seq<char>) -> Option<Seq<char>> {
    match find_from(tbl, p, 0) {
        Some(k) => Some(tbl[k].1),
        None => None,
    }
}

pub open spec fn lua_ext() -> Seq<char> {
    seq!['.', 'l', 'u', 'a']
}

pub open spec fn ends_with_lua(s: Seq<char>) -> bool {
    s.len() >= 4 && s.subrange(s.len() - 4, s.len() as int) == lua_ext()
}

/// A directive's name as a file name: `.lua` is appended where it is missing.
pub open spec fn file_of(name: Seq<char>) -> Seq<char> {
    if ends_with_lua(name) {
        name
    } else {
        name + lua_ext()
    }
}

/// The length of the directory part of a path: up to and with its last `/`.
pub open spec fn dir_len(p: Seq<char>) -> nat
    decreases p.len(),
{
    if p.len() == 0 {
        0
    } else if p.last() == '/' {
        p.len()
    } else {
        dir_len(p.drop_last())
    }
}

/// The path that a directive naming `name` refers to, from the fragment at
/// path `p`.
pub open spec fn child_path(p: Seq<char>, name: Seq<char>) -> Seq<char> {
    p.take(dir_len(p) as int) + file_of(name)
}

/// The fragments on the current recursion path: distinct, and each in the
/// table.
pub open spec fn ancestry_ok(tbl: Table, anc: Seq<Seq<char>>) -> bool {
    &&& anc.no_duplicates()
    &&& forall|j: int| 0 <= j < anc.len() ==> keys(tbl).contains(#[trigger] anc[j])
}

/// Why a script cannot be resolved.
pub enum LoadError {
    Circular,
    Duplicate(Seq<char>),
    Io(Seq<char>),
}

/// Flattening of the segments `segs[i..]` of the fragment at `path`.
///
/// `seen` holds the names that this fragment's earlier directives gave, `anc`
/// the fragments on the recursion path (the current one last), `done` the
/// fragments spliced in so far, in the order in which their expansion
/// finished, and `out` the text produced so far for this fragment. The result
/// is the fragment's whole text and the new `done`.
pub open spec fn flatten(
    tbl: Table,
    path: Seq<char>,
    segs: Seq<Segment>,
    i: int,
    seen: Seq<Seq<char>>,
    anc: Seq<Seq<char>>,
    done: Seq<Seq<char>>,
    out: Seq<char>,
) -> Result<(Seq<char>, Seq<Seq<char>>), LoadError>
    decreases tbl.len() - anc.len(), segs.len() - i,
    when ancestry_ok(tbl, anc) && 0 <= i
    via flatten_decreases
{
    if i >= segs.len() {
        Ok((out, done))
    } else {
        match segs[i] {
            Segment::Text(t) => flatten(tbl, path, segs, i + 1, seen, anc, done, out + t),
            Segment::Include(name) => {
                let child = child_path(path, name);
                if seen.contains(name) {
                    Err(LoadError::Duplicate(name))
                } else if anc.contains(child) {
                    Err(LoadError::Circular)
                } else {
                    match lookup(tbl, child) {
                        None => Err(LoadError::Io(child)),
                        Some(body) => match flatten(
                            tbl,
                            child,
                            segments(body),
                            0,
                            Seq::empty(),
                            anc.push(child),
                            done,
                            Seq::empty(),
                        ) {
                            Err(e) => Err(e),
                            Ok((sub, d)) => if done.contains(child) {
                                flatten(tbl, path, segs, i + 1, seen.push(name), anc, d, out)
                            } else {
                                flatten(
                                    tbl,
                                    path,
                                    segs,
                                    i + 1,
                                    seen.push(name),
                                    anc,
                                    d.push(child),
                                    out + sub,
                                )
                            },
                        },
                    }
                }
            },
        }
    }
}

proof fn lemma_find_from(tbl: Table, p: Seq<char>, i: int)
    requires
        0 <= i,
    ensures
        find_from(tbl, p, i) matches Some(k) ==> i <= k < tbl.len() && tbl[k].0 == p,
        find_from(tbl, p, i) is None ==> forall|k: int| i <= k < tbl.len() ==> tbl[k].0 != p,
    decreases tbl.len() - i,
{
    if i < tbl.len() && tbl[i].0 != p {
        lemma_find_from(tbl, p, i + 1);
    }
}

proof fn lemma_lookup_key(tbl: Table, p: Seq<char>)
    ensures
        lookup(tbl, p) is Some <==> keys(tbl).contains(p),
{
    lemma_find_from(tbl, p, 0);
    if let Some(k) = find_from(tbl, p, 0) {
        assert(keys(tbl)[k] == p);
    }
    if keys(tbl).contains(p) {
        let k = choose|k: int| 0 <= k < keys(tbl).len() && keys(tbl)[k] == p;
        assert(tbl[k].0 == p);
    }
}

proof fn lemma_ancestry_bound(tbl: Table, anc: Seq<Seq<char>>)
    requires
        ancestry_ok(tbl, anc),
    ensures
        anc.len() <= tbl.len(),
{
    anc.unique_seq_to_set();
    keys(tbl).lemma_cardinality_of_set();
    assert(anc.to_set().subset_of(keys(tbl).to_set())) by {
        assert forall|a: Seq<char>| anc.to_set().contains(a) implies keys(
            tbl,
        ).to_set().contains(a) by {
            let j = choose|j: int| 0 <= j < anc.len() && anc[j] == a;
            assert(keys(tbl).contains(anc[j]));
        }
    }
    vstd::set_lib::lemma_len_subset(anc.to_set(), keys(tbl).to_set());
}

#[via_fn]
proof fn flatten_decreases(
    tbl: Table,
    path: Seq<char>,
    segs: Seq<Segment>,
    i: int,
    seen: Seq<Seq<char>>,
    anc: Seq<Seq<char>>,
    done: Seq<Seq<char>>,
    out: Seq<char>,
) {
    lemma_ancestry_bound(tbl, anc);
    if 0 <= i < segs.len() {
        if let Segment::Include(name) = segs[i] {
            let child = child_path(path, name);
            if !anc.contains(child) && lookup(tbl, child) is Some {
                lemma_lookup_key(tbl, child);
                lemma_ancestry_push(tbl, anc, child);
                lemma_ancestry_bound(tbl, anc.push(child));
            }
        }
    }
}

proof fn lemma_ancestry_push(tbl: Table, anc: Seq<Seq<char>>, child: Seq<char>)
    requires
        ancestry_ok(tbl, anc),
        !anc.contains(child),
        keys(tbl).contains(child),
    ensures
        ancestry_ok(tbl, anc.push(child)),
{
    let a2 = anc.push(child);
    assert forall|j: int, k: int| 0 <= j < a2.len() && 0 <= k < a2.len() && j != k implies a2[j]
        != a2[k] by {
        if j < anc.len() && k < anc.len() {
        } else if j == anc.len() {
            assert(a2[k] == anc[k]);
        } else {
            assert(a2[j] == anc[j]);
        }
    }
    assert forall|j: int| 0 <= j < a2.len() implies keys(tbl).contains(#[trigger] a2[j]) by {
        if j < anc.len() {
            assert(a2[j] == anc[j]);
        }
    }
}

/// The result of resolving the fragment at path `root`: its flattened text.
pub open spec fn resolve(tbl: Table, root: Seq<char>) -> Result<Seq<char>, LoadError> {
    match lookup(tbl, root) {
        None => Err(LoadError::Io(root)),
        Some(body) => match flatten(
            tbl,
            root,
            segments(body),
            0,
            Seq::empty(),
            seq![root],
            Seq::empty(),
            Seq::empty(),
        ) {
            Ok((text, _)) => Ok(text),
            Err(e) => Err(e),
        },
    }
}

/// Why a script cannot be resolved: a fragment includes one of its own
/// ancestors, a fragment names the same target twice, or a fragment cannot be
/// read (the path is given).
#[derive(Debug, PartialEq, Eq)]
pub enum ScriptLoaderError {
    CircularDependency,
    DuplicateIncludes(String),
    IoError(String),
}

impl View for ScriptLoaderError {
    type V = LoadError;

    open spec fn view(&self) -> LoadError {
        match self {
            ScriptLoaderError::CircularDependency => LoadError::Circular,
            ScriptLoaderError::DuplicateIncludes(n) => LoadError::Duplicate(n@),
            ScriptLoaderError::IoError(m) => LoadError::Io(m@),
        }
    }
}

/// The fragments that a script may include, by path.
pub struct ScriptTable {
    files: Vec<(Vec<char>, Vec<char>)>,
}

pub open spec fn table_view(v: Seq<(Vec<char>, Vec<char>)>) -> Table {
    v.map_values(|e: (Vec<char>, Vec<char>)| (e.0@, e.1@))
}

pub open spec fn seqs(v: Seq<Vec<char>>) -> Seq<Seq<char>> {
    v.map_values(|x: Vec<char>| x@)
}

impl View for ScriptTable {
    type V = Table;

    closed spec fn view(&self) -> Table {
        table_view(self.files@)
    }
}

impl ScriptTable {
    /// An empty table.
    pub fn new() -> (r: ScriptTable)
        ensures
            r@ == Seq::<(Seq<char>, Seq<char>)>::empty(),
    {
        let r = ScriptTable { files: Vec::new() };
        assert(r@ =~= Seq::<(Seq<char>, Seq<char>)>::empty());
        r
    }

    /// Stores `content` under `path`. Lookups take the first entry with a
    /// given path.
    pub fn add(&mut self, path: &str, content: &str)
        ensures
            final(self)@ == old(self)@.push((path@, content@)),
    {
        let p = chars_of(path);
        let c = chars_of(content);
        self.files.push((p, c));
        assert(self@ =~= old(self)@.push((path@, content@)));
    }

    /// The number of entries.
    pub fn len(&self) -> (r: usize)
        ensures
            r == self@.len(),
    {
        self.files.len()
    }
}

fn chars_eq(a: &Vec<char>, b: &Vec<char>) -> (r: bool)
    ensures
        r == (a@ == b@),
{
    if a.len() != b.len() {
        return false;
    }
    let mut i: usize = 0;
    while i < a.len()
        invariant
            a@.len() == b@.len(),
            i <= a@.len(),
            forall|k: int| 0 <= k < i ==> a@[k] == b@[k],
        decreases a@.len() - i,
    {
        if a[i] != b[i] {
            return false;
        }
        i = i + 1;
    }
    assert(a@ =~= b@);
    true
}

fn contains_chars(v: &Vec<Vec<char>>, x: &Vec<char>) -> (r: bool)
    ensures
        r == seqs(v@).contains(x@),
{
    let mut i: usize = 0;
    while i < v.len()
        invariant
            i <= v@.len(),
            forall|k: int| 0 <= k < i ==> v@[k]@ != x@,
        decreases v@.len() - i,
    {
        if chars_eq(&v[i], x) {
            assert(seqs(v@)[i as int] == x@);
            return true;
        }
        i = i + 1;
    }
    assert(!seqs(v@).contains(x@)) by {
        if seqs(v@).contains(x@) {
            let k = choose|k: int| 0 <= k < seqs(v@).len() && seqs(v@)[k] == x@;
            assert(v@[k]@ == x@);
        }
    }
    false
}

fn find_exec(tbl: &Vec<(Vec<char>, Vec<char>)>, p: &Vec<char>) -> (r: Option<usize>)
    ensures
        r matches Some(k) ==> find_from(table_view(tbl@), p@, 0) == Some(k as int),
        r is None ==> find_from(table_view(tbl@), p@, 0) is None,
{
    let mut i: usize = 0;
    while i < tbl.len()
        invariant
            i <= tbl@.len(),
            find_from(table_view(tbl@), p@, 0) == find_from(table_view(tbl@), p@, i as int),
        decreases tbl@.len() - i,
    {
        if chars_eq(&tbl[i].0, p) {
            assert(table_view(tbl@)[i as int].0 == tbl@[i as int].0@);
            return Some(i);
        }
        i = i + 1;
    }
    None
}

fn append_chars(out: &mut Vec<char>, t: &Vec<char>)
    ensures
        final(out)@ == old(out)@ + t@,
{
    let mut i: usize = 0;
    while i < t.len()
        invariant
            i <= t@.len(),
            out@ == old(out)@ + t@.subrange(0, i as int),
        decreases t@.len() - i,
    {
        out.push(t[i]);
        i = i + 1;
        assert(out@ =~= old(out)@ + t@.subrange(0, i as int));
    }
    assert(t@.subrange(0, i as int) =~= t@);
}

fn copy_chars(v: &Vec<char>) -> (r: Vec<char>)
    ensures
        r@ == v@,
{
    let r = slice_chars(v, 0, v.len());
    assert(r@ =~= v@);
    r
}

fn ends_with_lua_exec(s: &Vec<char>) -> (r: bool)
    ensures
        r == ends_with_lua(s@),
{
    let n = s.len();
    if n < 4 {
        return false;
    }
    let r = s[n - 4] == '.' && s[n - 3] == 'l' && s[n - 2] == 'u' && s[n - 1] == 'a';
    let ghost tail = s@.subrange(n - 4, n as int);
    if r {
        assert(tail =~= lua_ext());
    } else {
        assert(tail[0] != lua_ext()[0] || tail[1] != lua_ext()[1] || tail[2] != lua_ext()[2]
            || tail[3] != lua_ext()[3]);
    }
    r
}

fn child_path_exec(p: &Vec<char>, name: &Vec<char>) -> (r: Vec<char>)
    ensures
        r@ == child_path(p@, name@),
{
    let mut j = p.len();
    assert(p@.take(j as int) =~= p@);
    while j > 0 && p[j - 1] != '/'
        invariant
            j <= p@.len(),
            dir_len(p@) == dir_len(p@.take(j as int)),
        decreases j,
    {
        assert(p@.take(j as int).drop_last() =~= p@.take(j - 1));
        j = j - 1;
    }
    assert(dir_len(p@.take(j as int)) == j);
    let mut r = slice_chars(p, 0, j);
    append_chars(&mut r, name);
    if !ends_with_lua_exec(name) {
        r.push('.');
        r.push('l');
        r.push('u');
        r.push('a');
        assert(r@ =~= p@.take(j as int) + name@ + lua_ext());
    }
    r
}

/// Flattens the fragment at `path` whose text is `body`; `anc` holds the
/// fragments on the recursion path, `path` last, and is given back as it was.
fn flatten_exec(
    tbl: &Vec<(Vec<char>, Vec<char>)>,
    path: &Vec<char>,
    body: &Vec<char>,
    anc: &mut Vec<Vec<char>>,
    done: &mut Vec<Vec<char>>,
) -> (r: Result<Vec<char>, ScriptLoaderError>)
    requires
        ancestry_ok(table_view(tbl@), seqs(old(anc)@)),
    ensures
        seqs(final(anc)@) == seqs(old(anc)@),
        match flatten(
            table_view(tbl@),
            path@,
            segments(body@),
            0,
            Seq::empty(),
            seqs(old(anc)@),
            seqs(old(done)@),
            Seq::empty(),
        ) {
            Ok((text, d)) => r matches Ok(o) && o@ == text && seqs(final(done)@) == d,
            Err(e) => r matches Err(x) && x@ == e,
        },
    decreases tbl@.len() - old(anc)@.len(),
{
    let ghost t = table_view(tbl@);
    let ghost anc0 = seqs(anc@);
    let ghost done0 = seqs(done@);
    let segs = split_segments(body);
    let ghost ss = segments(body@);
    let mut seen: Vec<Vec<char>> = Vec::new();
    let mut out: Vec<char> = Vec::new();
    let mut i: usize = 0;
    assert(seqs(seen@) =~= Seq::<Seq<char>>::empty());
    assert(segs@.len() == ss.len());
    while i < segs.len()
        invariant
            i <= segs@.len(),
            segs@.len() == ss.len(),
            forall|k: int| 0 <= k < ss.len() ==> #[trigger] ss[k] == segs@[k]@,
            ss == segments(body@),
            t == table_view(tbl@),
            seqs(anc@) == anc0,
            anc0 == seqs(old(anc)@),
            done0 == seqs(old(done)@),
            ancestry_ok(t, anc0),
            flatten(t, path@, ss, 0, Seq::empty(), anc0, done0, Seq::empty()) == flatten(
                t,
                path@,
                ss,
                i as int,
                seqs(seen@),
                anc0,
                seqs(done@),
                out@,
            ),
        decreases segs@.len() - i,
    {
        assert(ss[i as int] == segs@[i as int]@);
        match &segs[i] {
            Piece::Text(text) => {
                append_chars(&mut out, text);
            },
            Piece::Include(name) => {
                let child = child_path_exec(path, name);
                if contains_chars(&seen, name) {
                    return Err(ScriptLoaderError::DuplicateIncludes(string_of(name)));
                }
                if contains_chars(anc, &child) {
                    return Err(ScriptLoaderError::CircularDependency);
                }
                match find_exec(tbl, &child) {
                    None => {
                        return Err(ScriptLoaderError::IoError(string_of(&child)));
                    },
                    Some(k) => {
                        proof {
                            lemma_find_from(t, child@, 0);
                            lemma_lookup_key(t, child@);
                            lemma_ancestry_push(t, anc0, child@);
                            lemma_ancestry_bound(t, anc0.push(child@));
                        }
                        assert(find_from(t, child@, 0) == Some(k as int));
                        assert(t[k as int] == (tbl@[k as int].0@, tbl@[k as int].1@));
                        assert(lookup(t, child@) == Some(tbl@[k as int].1@));
                        let ghost done_v = seqs(done@);
                        let ghost seen_v = seqs(seen@);
                        let ghost out_v = out@;
                        let was_done = contains_chars(done, &child);
                        let again = copy_chars(&child);
                        anc.push(again);
                        assert(seqs(anc@) =~= anc0.push(child@));
                        let sub = flatten_exec(tbl, &child, &tbl[k].1, anc, done);
                        let ghost a1 = anc@;
                        anc.pop();
                        assert(seqs(anc@) =~= seqs(a1).drop_last());
                        assert(seqs(a1).drop_last() =~= anc0);
                        let ghost sub_r = flatten(
                            t,
                            child@,
                            segments(tbl@[k as int].1@),
                            0,
                            Seq::empty(),
                            anc0.push(child@),
                            done_v,
                            Seq::empty(),
                        );
                        assert(flatten(t, path@, ss, i as int, seen_v, anc0, done_v, out_v) == match sub_r {
                            Err(e) => Err(e),
                            Ok((sub, d)) => if done_v.contains(child@) {
                                flatten(t, path@, ss, i + 1, seen_v.push(name@), anc0, d, out_v)
                            } else {
                                flatten(t, path@, ss, i + 1, seen_v.push(name@), anc0, d.push(child@), out_v + sub)
                            },
                        });
                        match sub {
                            Err(e) => {
                                return Err(e);
                            },
                            Ok(sub) => {
                                if !was_done {
                                    append_chars(&mut out, &sub);
                                    let ghost d = seqs(done@);
                                    done.push(child);
                                    assert(seqs(done@) =~= d.push(child@));
                                }
                            },
                        }
                    },
                }
                let ghost s0 = seqs(seen@);
                let again = copy_chars(name);
                seen.push(again);
                assert(seqs(seen@) =~= s0.push(name@));
            },
        }
        i = i + 1;
    }
    Ok(out)
}

/// Resolves the script at `path`: every directive is replaced by the
/// flattened text of the fragment it names, where that fragment is first
/// reached, and dropped where it is reached again.
pub fn load_script_content(table: &ScriptTable, path: &str) -> (r: Result<String, ScriptLoaderError>)
    ensures
        match resolve(table@, path@) {
            Ok(text) => r matches Ok(s) && s@ == text,
            Err(e) => r matches Err(x) && x@ == e,
        },
{
    let root = chars_of(path);
    match find_exec(&table.files, &root) {
        None => Err(ScriptLoaderError::IoError(string_of(&root))),
        Some(k) => {
            proof {
                lemma_find_from(table@, root@, 0);
                lemma_lookup_key(table@, root@);
            }
            assert(find_from(table@, root@, 0) == Some(k as int));
            assert(table@[k as int] == (table.files@[k as int].0@, table.files@[k as int].1@));
            assert(lookup(table@, root@) == Some(table.files@[k as int].1@));
            let mut anc: Vec<Vec<char>> = Vec::new();
            let again = copy_chars(&root);
            anc.push(again);
            let mut done: Vec<Vec<char>> = Vec::new();
            assert(seqs(anc@) =~= seq![root@]);
            assert(seqs(done@) =~= Seq::<Seq<char>>::empty());
            assert(ancestry_ok(table@, seqs(anc@))) by {
                assert(seqs(anc@)[0] == root@);
            }
            match flatten_exec(&table.files, &root, &table.files[k].1, &mut anc, &mut done) {
                Ok(text) => Ok(string_of(&text)),
                Err(e) => Err(e),
            }
        },
    }
}

/// The file name part of a path: after its last `/`.
pub open spec fn file_name(p: Seq<char>) -> Seq<char> {
    p.subrange(dir_len(p) as int, p.len() as int)
}

pub open spec fn bad_name_message(name: Seq<char>) -> Seq<char> {
    "Script name must end with .lua, got "@ + name
}

/// The name of a command script: a file name that ends with `.lua`.
#[derive(Debug)]
pub struct ScriptName(String);

impl ScriptName {
    pub closed spec fn view(&self) -> Seq<char> {
        self.0@
    }

    /// Accepts `name` if it ends with `.lua`.
    pub fn new(name: &str) -> (r: Result<ScriptName, ScriptLoaderError>)
        ensures
            ends_with_lua(name@) ==> (r matches Ok(n) && n.view() == name@),
            !ends_with_lua(name@) ==> (r matches Err(e) && e@ == LoadError::Io(
                bad_name_message(name@),
            )),
    {
        let v = chars_of(name);
        if !ends_with_lua_exec(&v) {
            let mut msg = String::from_str("Script name must end with .lua, got ");
            msg.append(name);
            return Err(ScriptLoaderError::IoError(msg));
        }
        Ok(ScriptName(String::from_str(name)))
    }

    pub fn as_str(&self) -> (r: &str)
        ensures
            r@ == self.view(),
    {
        self.0.as_str()
    }
}

/// A resolved command script: its file name and its flattened text.
#[derive(Debug)]
pub struct Command {
    name: ScriptName,
    pub lua: String,
}

impl Command {
    pub closed spec fn name_view(&self) -> Seq<char> {
        self.name.view()
    }

    pub closed spec fn lua_view(&self) -> Seq<char> {
        self.lua@
    }

    /// The file name of the script.
    pub fn name(&self) -> (r: &str)
        ensures
            r@ == self.name_view(),
    {
        self.name.as_str()
    }
}

fn file_name_exec(p: &Vec<char>) -> (r: Vec<char>)
    ensures
        r@ == file_name(p@),
{
    let mut j = p.len();
    assert(p@.take(j as int) =~= p@);
    while j > 0 && p[j - 1] != '/'
        invariant
            j <= p@.len(),
            dir_len(p@) == dir_len(p@.take(j as int)),
        decreases j,
    {
        assert(p@.take(j as int).drop_last() =~= p@.take(j - 1));
        j = j - 1;
    }
    assert(dir_len(p@.take(j as int)) == j);
    slice_chars(p, j, p.len())
}

/// Builds commands from the fragments of a table.
pub struct ScriptLoader;

impl ScriptLoader {
    pub fn new() -> ScriptLoader {
        ScriptLoader
    }

    /// Resolves the script at `path` and names it after its file: resolution
    /// errors first, then a file name without `.lua`.
    pub fn load_command(&self, table: &ScriptTable, path: &str) -> (r: Result<
        Command,
        ScriptLoaderError,
    >)
        ensures
            match resolve(table@, path@) {
                Ok(text) => if ends_with_lua(file_name(path@)) {
                    r matches Ok(c) && c.lua_view() == text && c.name_view() == file_name(path@)
                } else {
                    r matches Err(e) && e@ == LoadError::Io(bad_name_message(file_name(path@)))
                },
                Err(e) => r matches Err(x) && x@ == e,
            },
    {
        let lua = match load_script_content(table, path) {
            Ok(lua) => lua,
            Err(e) => {
                return Err(e);
            },
        };
        let file = string_of(&file_name_exec(&chars_of(path)));
        match ScriptName::new(file.as_str()) {
            Ok(name) => Ok(Command { name, lua }),
            Err(e) => Err(e),
        }
    }
}

/// `redis::Script`, held opaque: a script's code and digest, ready to run.
#[verifier::external_type_specification]
#[verifier::external_body]
pub struct ExScript(redis::Script);

/// What `redis::Script::new` builds from a script's code: the code and its
/// digest, which depend on the code alone.
pub uninterp spec fn script_of(code: Seq<char>) -> redis::Script;

/// Relies on `redis::Script::new`: it keeps the code and computes its SHA-1
/// digest, nothing else.
#[verifier::external_body]
fn new_script(code: &str) -> (r: redis::Script)
    ensures
        r == script_of(code@),
{
    redis::Script::new(code)
}

/// Resolves the script at `path` and prepares it for the store.
pub fn load_redis_script(table: &ScriptTable, path: &str) -> (r: Result<
    redis::Script,
    ScriptLoaderError,
>)
    ensures
        match resolve(table@, path@) {
            Ok(text) => r == Ok::<redis::Script, ScriptLoaderError>(script_of(text)),
            Err(e) => r matches Err(x) && x@ == e,
        },
{
    match load_script_content(table, path) {
        Ok(lua) => Ok(new_script(lua.as_str())),
        Err(e) => Err(e),
    }
}

proof fn lemma_flatten_texts(
    tbl: Table,
    path: Seq<char>,
    segs: Seq<Segment>,
    i: int,
    seen: Seq<Seq<char>>,
    anc: Seq<Seq<char>>,
    done: Seq<Seq<char>>,
    out: Seq<char>,
)
    requires
        ancestry_ok(tbl, anc),
        0 <= i <= segs.len(),
        forall|j: int| i <= j < segs.len() ==> segs[j] is Text,
    ensures
        flatten(tbl, path, segs, i, seen, anc, done, out) == Ok::<
            (Seq<char>, Seq<Seq<char>>),
            LoadError,
        >((out + text_of(segs.subrange(i, segs.len() as int)), done)),
    decreases segs.len() - i,
{
    let rest = segs.subrange(i, segs.len() as int);
    if i < segs.len() {
        let t = segs[i]->Text_0;
        lemma_flatten_texts(tbl, path, segs, i + 1, seen, anc, done, out + t);
        assert(rest.drop_first() =~= segs.subrange(i + 1, segs.len() as int));
        assert(out + t + text_of(segs.subrange(i + 1, segs.len() as int)) =~= out + text_of(rest));
    } else {
        assert(rest =~= Seq::<Segment>::empty());
        assert(out + text_of(rest) =~= out);
    }
}

/// A script without directives resolves to itself.
pub proof fn lemma_no_directive_unchanged(tbl: Table, root: Seq<char>)
    requires
        lookup(tbl, root) is Some,
        has_no_directive(lookup(tbl, root)->0),
    ensures
        resolve(tbl, root) == Ok::<Seq<char>, LoadError>(lookup(tbl, root)->0),
{
    let body = lookup(tbl, root)->0;
    let segs = segments(body);
    lemma_lookup_key(tbl, root);
    assert(ancestry_ok(tbl, seq![root])) by {
        assert(seq![root][0] == root);
    }
    lemma_text_of_segments(body, 0);
    lemma_flatten_texts(tbl, root, segs, 0, Seq::empty(), seq![root], Seq::empty(), Seq::empty());
    assert(segs.subrange(0, segs.len() as int) =~= segs);
    assert(body.subrange(0, body.len() as int) =~= body);
    assert(Seq::<char>::empty() + body =~= body);
}

/// The fragments spliced into the script at `root`, in the order in which
/// their expansion finished.
pub open spec fn splice_order(tbl: Table, root: Seq<char>) -> Seq<Seq<char>> {
    match lookup(tbl, root) {
        None => Seq::empty(),
        Some(body) => match flatten(
            tbl,
            root,
            segments(body),
            0,
            Seq::empty(),
            seq![root],
            Seq::empty(),
            Seq::empty(),
        ) {
            Ok((_, d)) => d,
            Err(_) => Seq::empty(),
        },
    }
}

proof fn lemma_flatten_done(
    tbl: Table,
    path: Seq<char>,
    segs: Seq<Segment>,
    i: int,
    seen: Seq<Seq<char>>,
    anc: Seq<Seq<char>>,
    done: Seq<Seq<char>>,
    out: Seq<char>,
)
    requires
        ancestry_ok(tbl, anc),
        0 <= i,
        done.no_duplicates(),
    ensures
        flatten(tbl, path, segs, i, seen, anc, done, out) matches Ok((_, d)) ==> {
            &&& d.no_duplicates()
            &&& done.len() <= d.len()
            &&& d.take(done.len() as int) == done
            &&& forall|k: int| done.len() <= k < d.len() ==> !anc.contains(#[trigger] d[k])
        },
    decreases tbl.len() - anc.len(), segs.len() - i,
{
    lemma_ancestry_bound(tbl, anc);
    if i < segs.len() {
        match segs[i] {
            Segment::Text(t) => {
                lemma_flatten_done(tbl, path, segs, i + 1, seen, anc, done, out + t);
            },
            Segment::Include(name) => {
                let child = child_path(path, name);
                if !seen.contains(name) && !anc.contains(child) && lookup(tbl, child) is Some {
                    let body = lookup(tbl, child)->0;
                    let a2 = anc.push(child);
                    lemma_lookup_key(tbl, child);
                    lemma_ancestry_push(tbl, anc, child);
                    lemma_ancestry_bound(tbl, a2);
                    lemma_flatten_done(tbl, child, segments(body), 0, Seq::empty(), a2, done, Seq::empty());
                    if let Ok((sub, d)) = flatten(tbl, child, segments(body), 0, Seq::empty(), a2, done, Seq::empty()) {
                        assert forall|k: int| done.len() <= k < d.len() implies !anc.contains(#[trigger] d[k]) && d[k] != child by {
                            assert(!a2.contains(d[k]));
                            if anc.contains(d[k]) {
                                let m = choose|m: int| 0 <= m < anc.len() && anc[m] == d[k];
                                assert(a2[m] == d[k]);
                            }
                            assert(a2[anc.len() as int] == child);
                        }
                        if done.contains(child) {
                            lemma_flatten_done(tbl, path, segs, i + 1, seen.push(name), anc, d, out);
                            if let Ok((_, d3)) = flatten(tbl, path, segs, i + 1, seen.push(name), anc, d, out) {
                                assert(d3.take(done.len() as int) =~= d.take(d.len() as int).take(done.len() as int));
                                assert(d.take(d.len() as int) =~= d);
                                assert forall|k: int| done.len() <= k < d3.len() implies !anc.contains(#[trigger] d3[k]) by {
                                    if k < d.len() {
                                        assert(d3[k] == d3.take(d.len() as int)[k]);
                                        assert(d3[k] == d[k]);
                                    }
                                }
                            }
                        } else {
                            let d2 = d.push(child);
                            assert(!d.contains(child)) by {
                                if d.contains(child) {
                                    let m = choose|m: int| 0 <= m < d.len() && d[m] == child;
                                    if m < done.len() {
                                        assert(done[m] == d.take(done.len() as int)[m]);
                                    }
                                }
                            }
                            assert(d2.no_duplicates()) by {
                                assert forall|x: int, y: int| 0 <= x < d2.len() && 0 <= y < d2.len() && x != y implies d2[x] != d2[y] by {
                                    if x < d.len() && y < d.len() {
                                        assert(d2[x] == d[x] && d2[y] == d[y]);
                                    } else if x == d.len() {
                                        assert(d2[y] == d[y]);
                                    } else {
                                        assert(d2[x] == d[x]);
                                    }
                                }
                            }
                            lemma_flatten_done(tbl, path, segs, i + 1, seen.push(name), anc, d2, out + sub);
                            if let Ok((_, d3)) = flatten(tbl, path, segs, i + 1, seen.push(name), anc, d2, out + sub) {
                                assert(d2.take(done.len() as int) =~= d.take(done.len() as int));
                                assert(d3.take(done.len() as int) =~= d3.take(d2.len() as int).take(done.len() as int));
                                assert(d3.take(d2.len() as int) == d2);
                                assert forall|k: int| done.len() <= k < d3.len() implies !anc.contains(#[trigger] d3[k]) by {
                                    if k < d2.len() {
                                        assert(d3[k] == d3.take(d2.len() as int)[k]);
                                        assert(d3[k] == d2[k]);
                                        if k < d.len() {
                                            assert(d2[k] == d[k]);
                                        }
                                    }
                                }
                            }
                        }
                    }
                }
            },
        }
    }
}

/// Exactly-once inclusion: when a script resolves, no fragment is spliced
/// into it twice, however many directives reach it.
pub proof fn lemma_each_fragment_spliced_once(tbl: Table, root: Seq<char>)
    requires
        resolve(tbl, root) is Ok,
    ensures
        splice_order(tbl, root).no_duplicates(),
{
    lemma_lookup_key(tbl, root);
    assert(ancestry_ok(tbl, seq![root])) by {
        assert(seq![root][0] == root);
    }
    let body = lookup(tbl, root)->0;
    lemma_flatten_done(
        tbl,
        root,
        segments(body),
        0,
        Seq::empty(),
        seq![root],
        Seq::empty(),
        Seq::empty(),
    );
}

/// The fragment at `p` has a directive that refers to `q`.
pub open spec fn includes(tbl: Table, p: Seq<char>, q: Seq<char>) -> bool {
    &&& lookup(tbl, p) is Some
    &&& exists|j: int|
        0 <= j < segments(lookup(tbl, p)->0).len() && (#[trigger] segments(lookup(tbl, p)->0)[j]
            matches Segment::Include(n) && child_path(p, n) == q)
}

/// Each fragment of `cs` includes the next one.
pub open spec fn include_chain(tbl: Table, cs: Seq<Seq<char>>) -> bool {
    forall|k: int| 0 <= k < cs.len() - 1 ==> includes(tbl, #[trigger] cs[k], cs[k + 1])
}

/// What a successful flattening tells of the directive at `j`: its name was
/// not given before, the fragment it refers to is no ancestor and is in the
/// table, and that fragment flattens.
proof fn lemma_ok_directive(
    tbl: Table,
    path: Seq<char>,
    segs: Seq<Segment>,
    i: int,
    seen: Seq<Seq<char>>,
    anc: Seq<Seq<char>>,
    done: Seq<Seq<char>>,
    out: Seq<char>,
    j: int,
) -> (d: Seq<Seq<char>>)
    requires
        ancestry_ok(tbl, anc),
        0 <= i <= j < segs.len(),
        segs[j] is Include,
        flatten(tbl, path, segs, i, seen, anc, done, out) is Ok,
    ensures
        !seen.contains(segs[j]->Include_0),
        forall|k: int|
            i <= k < j && #[trigger] segs[k] is Include ==> segs[k]->Include_0
                != segs[j]->Include_0,
        !anc.contains(child_path(path, segs[j]->Include_0)),
        lookup(tbl, child_path(path, segs[j]->Include_0)) is Some,
        flatten(
            tbl,
            child_path(path, segs[j]->Include_0),
            segments(lookup(tbl, child_path(path, segs[j]->Include_0))->0),
            0,
            Seq::empty(),
            anc.push(child_path(path, segs[j]->Include_0)),
            d,
            Seq::empty(),
        ) is Ok,
    decreases j - i,
{
    if i == j {
        let name = segs[j]->Include_0;
        let child = child_path(path, name);
        lemma_lookup_key(tbl, child);
        if !seen.contains(name) && !anc.contains(child) && lookup(tbl, child) is Some {
            lemma_ancestry_push(tbl, anc, child);
        }
        done
    } else {
        match segs[i] {
            Segment::Text(t) => lemma_ok_directive(tbl, path, segs, i + 1, seen, anc, done, out + t, j),
            Segment::Include(name) => {
                let child = child_path(path, name);
                let body = lookup(tbl, child)->0;
                lemma_lookup_key(tbl, child);
                lemma_ancestry_push(tbl, anc, child);
                let (sub, d1) = flatten(
                    tbl,
                    child,
                    segments(body),
                    0,
                    Seq::empty(),
                    anc.push(child),
                    done,
                    Seq::empty(),
                )->Ok_0;
                let (d2, out2) = if done.contains(child) {
                    (d1, out)
                } else {
                    (d1.push(child), out + sub)
                };
                let r = lemma_ok_directive(tbl, path, segs, i + 1, seen.push(name), anc, d2, out2, j);
                assert(seen.push(name)[seen.len() as int] == name);
                assert forall|x: Seq<char>| seen.contains(x) implies seen.push(name).contains(x) by {
                    let m = choose|m: int| 0 <= m < seen.len() && seen[m] == x;
                    assert(seen.push(name)[m] == x);
                }
                r
            },
        }
    }
}

proof fn lemma_chain_from(
    tbl: Table,
    anc: Seq<Seq<char>>,
    cs: Seq<Seq<char>>,
    done: Seq<Seq<char>>,
) -> (r: (Seq<Seq<char>>, Seq<Seq<char>>))
    requires
        ancestry_ok(tbl, anc),
        anc.len() >= 1,
        cs.len() >= 1,
        cs[0] == anc.last(),
        lookup(tbl, cs[0]) is Some,
        flatten(
            tbl,
            cs[0],
            segments(lookup(tbl, cs[0])->0),
            0,
            Seq::empty(),
            anc,
            done,
            Seq::empty(),
        ) is Ok,
        include_chain(tbl, cs),
    ensures
        (anc + cs.drop_first()).no_duplicates(),
        ancestry_ok(tbl, r.0),
        lookup(tbl, cs.last()) is Some,
        flatten(
            tbl,
            cs.last(),
            segments(lookup(tbl, cs.last())->0),
            0,
            Seq::empty(),
            r.0,
            r.1,
            Seq::empty(),
        ) is Ok,
    decreases cs.len(),
{
    if cs.len() == 1 {
        assert(anc + cs.drop_first() =~= anc);
        (anc, done)
    } else {
        let p = cs[0];
        let segs = segments(lookup(tbl, p)->0);
        assert(includes(tbl, cs[0], cs[1]));
        let j = choose|j: int|
            0 <= j < segs.len() && (#[trigger] segs[j] matches Segment::Include(n) && child_path(
                p,
                n,
            ) == cs[1]);
        let d = lemma_ok_directive(tbl, p, segs, 0, Seq::empty(), anc, done, Seq::empty(), j);
        let c = cs[1];
        lemma_lookup_key(tbl, c);
        lemma_ancestry_push(tbl, anc, c);
        let rest = cs.drop_first();
        assert(include_chain(tbl, rest)) by {
            assert forall|k: int| 0 <= k < rest.len() - 1 implies includes(
                tbl,
                #[trigger] rest[k],
                rest[k + 1],
            ) by {
                assert(rest[k] == cs[k + 1] && rest[k + 1] == cs[k + 2]);
            }
        }
        let r = lemma_chain_from(tbl, anc.push(c), rest, d);
        assert(anc.push(c) + rest.drop_first() =~= anc + cs.drop_first());
        assert(rest.last() == cs.last());
        r
    }
}

/// Cycle detection: when a script resolves, no chain of includes from it
/// comes back to a fragment it has passed.
pub proof fn lemma_resolved_has_no_cycle(tbl: Table, root: Seq<char>, cs: Seq<Seq<char>>)
    requires
        resolve(tbl, root) is Ok,
        cs.len() >= 1,
        cs[0] == root,
        include_chain(tbl, cs),
    ensures
        cs.no_duplicates(),
{
    lemma_lookup_key(tbl, root);
    assert(ancestry_ok(tbl, seq![root])) by {
        assert(seq![root][0] == root);
    }
    lemma_chain_from(tbl, seq![root], cs, Seq::empty());
    assert(seq![root] + cs.drop_first() =~= cs);
}

/// Duplicate detection: when a script resolves, no fragment that it reaches
/// through includes names the same target in two directives.
pub proof fn lemma_resolved_has_no_duplicate_directive(
    tbl: Table,
    root: Seq<char>,
    cs: Seq<Seq<char>>,
    j1: int,
    j2: int,
)
    requires
        resolve(tbl, root) is Ok,
        cs.len() >= 1,
        cs[0] == root,
        include_chain(tbl, cs),
        lookup(tbl, cs.last()) is Some,
        0 <= j1 < j2 < segments(lookup(tbl, cs.last())->0).len(),
        segments(lookup(tbl, cs.last())->0)[j1] is Include,
        segments(lookup(tbl, cs.last())->0)[j2] is Include,
    ensures
        segments(lookup(tbl, cs.last())->0)[j1]->Include_0 != segments(
            lookup(tbl, cs.last())->0,
        )[j2]->Include_0,
{
    lemma_lookup_key(tbl, root);
    assert(ancestry_ok(tbl, seq![root])) by {
        assert(seq![root][0] == root);
    }
    let (a, d) = lemma_chain_from(tbl, seq![root], cs, Seq::empty());
    let segs = segments(lookup(tbl, cs.last())->0);
    lemma_ok_directive(tbl, cs.last(), segs, 0, Seq::empty(), a, d, Seq::empty(), j2);
    assert(segs[j1] is Include);
}

/// Every fragment of `d` comes after each fragment that it includes.
pub open spec fn dependencies_first(tbl: Table, d: Seq<Seq<char>>) -> bool {
    forall|k: int, q: Seq<char>|
        0 <= k < d.len() && #[trigger] includes(tbl, d[k], q) ==> d.take(k).contains(q)
}

proof fn lemma_prefix_contains(a: Seq<Seq<char>>, b: Seq<Seq<char>>, x: Seq<char>)
    requires
        a.len() <= b.len(),
        b.take(a.len() as int) == a,
        a.contains(x),
    ensures
        b.contains(x),
{
    let m = choose|m: int| 0 <= m < a.len() && a[m] == x;
    assert(b.take(a.len() as int)[m] == b[m]);
}

proof fn lemma_prefix_trans(a: Seq<Seq<char>>, b: Seq<Seq<char>>, c: Seq<Seq<char>>)
    requires
        a.len() <= b.len(),
        b.take(a.len() as int) == a,
        b.len() <= c.len(),
        c.take(b.len() as int) == b,
    ensures
        c.take(a.len() as int) == a,
{
    assert(c.take(a.len() as int) =~= c.take(b.len() as int).take(a.len() as int));
}

proof fn lemma_flatten_order(
    tbl: Table,
    path: Seq<char>,
    segs: Seq<Segment>,
    i: int,
    seen: Seq<Seq<char>>,
    anc: Seq<Seq<char>>,
    done: Seq<Seq<char>>,
    out: Seq<char>,
)
    requires
        ancestry_ok(tbl, anc),
        0 <= i,
        dependencies_first(tbl, done),
    ensures
        flatten(tbl, path, segs, i, seen, anc, done, out) matches Ok((_, d)) ==> {
            &&& dependencies_first(tbl, d)
            &&& done.len() <= d.len()
            &&& d.take(done.len() as int) == done
            &&& forall|j: int|
                i <= j < segs.len() && #[trigger] segs[j] is Include ==> d.contains(
                    child_path(path, segs[j]->Include_0),
                )
        },
    decreases tbl.len() - anc.len(), segs.len() - i,
{
    lemma_ancestry_bound(tbl, anc);
    if i >= segs.len() {
        assert(done.take(done.len() as int) =~= done);
    } else {
        match segs[i] {
            Segment::Text(t) => {
                lemma_flatten_order(tbl, path, segs, i + 1, seen, anc, done, out + t);
            },
            Segment::Include(name) => {
                let child = child_path(path, name);
                if !seen.contains(name) && !anc.contains(child) && lookup(tbl, child) is Some {
                    let body = lookup(tbl, child)->0;
                    let a2 = anc.push(child);
                    lemma_lookup_key(tbl, child);
                    lemma_ancestry_push(tbl, anc, child);
                    lemma_ancestry_bound(tbl, a2);
                    lemma_flatten_order(tbl, child, segments(body), 0, Seq::empty(), a2, done, Seq::empty());
                    if let Ok((sub, d1)) = flatten(tbl, child, segments(body), 0, Seq::empty(), a2, done, Seq::empty()) {
                        let (d2, out2) = if done.contains(child) {
                            (d1, out)
                        } else {
                            (d1.push(child), out + sub)
                        };
                        if !done.contains(child) {
                            assert(d2.take(d1.len() as int) =~= d1);
                            assert(dependencies_first(tbl, d2)) by {
                                assert forall|k: int, q: Seq<char>|
                                    0 <= k < d2.len() && #[trigger] includes(tbl, d2[k], q) implies d2.take(k).contains(q) by {
                                    if k < d1.len() {
                                        assert(d2[k] == d1[k]);
                                        assert(d2.take(k) =~= d1.take(k));
                                    } else {
                                        assert(d2[k] == child);
                                        let cs = segments(body);
                                        let j = choose|j: int|
                                            0 <= j < cs.len() && (#[trigger] cs[j] matches Segment::Include(n)
                                                && child_path(child, n) == q);
                                        assert(cs[j] is Include);
                                        assert(d1.contains(q));
                                        assert(d2.take(k) =~= d1);
                                    }
                                }
                            }
                            lemma_prefix_trans(done, d1, d2);
                        }
                        lemma_flatten_order(tbl, path, segs, i + 1, seen.push(name), anc, d2, out2);
                        if let Ok((_, d3)) = flatten(tbl, path, segs, i + 1, seen.push(name), anc, d2, out2) {
                            lemma_prefix_trans(done, d2, d3);
                            if done.contains(child) {
                                lemma_prefix_contains(done, d3, child);
                            } else {
                                assert(d2[d1.len() as int] == child);
                                assert(d2.contains(child));
                                lemma_prefix_contains(d2, d3, child);
                            }
                            assert forall|j: int|
                                i <= j < segs.len() && #[trigger] segs[j] is Include implies d3.contains(
                                    child_path(path, segs[j]->Include_0),
                                ) by {
                                if j == i {
                                    assert(segs[j]->Include_0 == name);
                                }
                            }
                        }
                    }
                }
            },
        }
    }
}

/// Dependency ordering: when a script resolves, every fragment that it
/// includes is spliced in, and each spliced fragment comes, in the splice
/// order, after every fragment that it includes itself.
pub proof fn lemma_dependencies_spliced_first(tbl: Table, root: Seq<char>)
    requires
        resolve(tbl, root) is Ok,
    ensures
        dependencies_first(tbl, splice_order(tbl, root)),
        forall|q: Seq<char>| #[trigger] includes(tbl, root, q) ==> splice_order(tbl, root).contains(q),
{
    lemma_lookup_key(tbl, root);
    assert(ancestry_ok(tbl, seq![root])) by {
        assert(seq![root][0] == root);
    }
    let body = lookup(tbl, root)->0;
    let segs = segments(body);
    assert(dependencies_first(tbl, Seq::<Seq<char>>::empty()));
    lemma_flatten_order(tbl, root, segs, 0, Seq::empty(), seq![root], Seq::empty(), Seq::empty());
    assert forall|q: Seq<char>| #[trigger] includes(tbl, root, q) implies splice_order(tbl, root).contains(q) by {
        let j = choose|j: int|
            0 <= j < segs.len() && (#[trigger] segs[j] matches Segment::Include(n) && child_path(root, n) == q);
        assert(segs[j] is Include);
    }
}

/// Every fragment of the table ends with a newline (or is empty), and each
/// of its directives is followed on its line by nothing but the newline.
pub open spec fn tidy_table(tbl: Table) -> bool {
    forall|k: int|
        0 <= k < tbl.len() ==> line_closed(#[trigger] tbl[k].1) && directives_end_lines(tbl[k].1)
}

proof fn lemma_lookup_tidy(tbl: Table, p: Seq<char>)
    requires
        tidy_table(tbl),
        lookup(tbl, p) is Some,
    ensures
        line_closed(lookup(tbl, p)->0),
        directives_end_lines(lookup(tbl, p)->0),
{
    lemma_find_from(tbl, p, 0);
    let k = find_from(tbl, p, 0)->0;
    assert(line_closed(tbl[k].1));
}

proof fn lemma_flatten_clean(
    tbl: Table,
    path: Seq<char>,
    segs: Seq<Segment>,
    i: int,
    seen: Seq<Seq<char>>,
    anc: Seq<Seq<char>>,
    done: Seq<Seq<char>>,
    out: Seq<char>,
)
    requires
        ancestry_ok(tbl, anc),
        0 <= i,
        tidy_table(tbl),
        line_closed(out),
        has_no_directive(out),
        forall|j: int|
            i <= j < segs.len() && #[trigger] segs[j] is Text ==> has_no_directive(segs[j]->Text_0)
                && line_closed(segs[j]->Text_0),
    ensures
        flatten(tbl, path, segs, i, seen, anc, done, out) matches Ok((o, _)) ==> has_no_directive(o)
            && line_closed(o),
    decreases tbl.len() - anc.len(), segs.len() - i,
{
    lemma_ancestry_bound(tbl, anc);
    if i < segs.len() {
        match segs[i] {
            Segment::Text(t) => {
                lemma_concat_no_directive(out, t);
                lemma_flatten_clean(tbl, path, segs, i + 1, seen, anc, done, out + t);
            },
            Segment::Include(name) => {
                let child = child_path(path, name);
                if !seen.contains(name) && !anc.contains(child) && lookup(tbl, child) is Some {
                    let body = lookup(tbl, child)->0;
                    let a2 = anc.push(child);
                    lemma_lookup_key(tbl, child);
                    lemma_ancestry_push(tbl, anc, child);
                    lemma_ancestry_bound(tbl, a2);
                    lemma_lookup_tidy(tbl, child);
                    let cs = segments(body);
                    assert forall|j: int| 0 <= j < cs.len() && #[trigger] cs[j] is Text implies has_no_directive(
                        cs[j]->Text_0,
                    ) && line_closed(cs[j]->Text_0) by {
                        lemma_text_segments_clean(body, 0, j);
                    }
                    assert(has_no_directive(Seq::<char>::empty()));
                    lemma_flatten_clean(tbl, child, cs, 0, Seq::empty(), a2, done, Seq::empty());
                    if let Ok((sub, d)) = flatten(tbl, child, cs, 0, Seq::empty(), a2, done, Seq::empty()) {
                        if done.contains(child) {
                            lemma_flatten_clean(tbl, path, segs, i + 1, seen.push(name), anc, d, out);
                        } else {
                            lemma_concat_no_directive(out, sub);
                            lemma_flatten_clean(
                                tbl,
                                path,
                                segs,
                                i + 1,
                                seen.push(name),
                                anc,
                                d.push(child),
                                out + sub,
                            );
                        }
                    }
                }
            },
        }
    }
}

/// Include flattening leaves no directive behind, for tables whose
/// fragments each end with a newline and carry nothing after a directive on
/// its line.
pub proof fn lemma_resolved_has_no_directive(tbl: Table, root: Seq<char>)
    requires
        resolve(tbl, root) is Ok,
        tidy_table(tbl),
    ensures
        has_no_directive(resolve(tbl, root)->Ok_0),
{
    lemma_lookup_key(tbl, root);
    assert(ancestry_ok(tbl, seq![root])) by {
        assert(seq![root][0] == root);
    }
    let body = lookup(tbl, root)->0;
    lemma_lookup_tidy(tbl, root);
    let cs = segments(body);
    assert forall|j: int| 0 <= j < cs.len() && #[trigger] cs[j] is Text implies has_no_directive(
        cs[j]->Text_0,
    ) && line_closed(cs[j]->Text_0) by {
        lemma_text_segments_clean(body, 0, j);
    }
    assert(has_no_directive(Seq::<char>::empty()));
    lemma_flatten_clean(tbl, root, cs, 0, Seq::empty(), seq![root], Seq::empty(), Seq::empty());
}

} // verus!
