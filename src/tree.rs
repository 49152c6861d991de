use vstd::prelude::*;

use crate::filter::{should_skip, skipped};
use crate::scan::{Contents, Entry, IoError};
use crate::text::{append, append_decimal, decimal};

verus! {

broadcast use {vstd::std_specs::vec::group_vec_axioms, vstd::seq::group_seq_axioms};

/// A directory as a mathematical value: its path, its subdirectories and its
/// files (path and line count), each `None` when there are none.
pub struct DirModel {
    pub root: Seq<char>,
    pub dirs: Option<Seq<DirModel>>,
    pub files: Option<Seq<(Seq<char>, nat)>>,
}

/// `None` for an empty sequence, else the sequence.
pub open spec fn present<T>(s: Seq<T>) -> Option<Seq<T>> {
    if s.len() == 0 {
        None
    } else {
        Some(s)
    }
}

/// The node for a directory at `root` with the given children.
pub open spec fn node(root: Seq<char>, dirs: Seq<DirModel>, files: Seq<(Seq<char>, nat)>) -> DirModel {
    DirModel { root, dirs: present(dirs), files: present(files) }
}

/// The subdirectory nodes and the files that a walk of `c` finds, in the
/// order of the listing, or the failure of the first directory, in walk
/// order, that could not be listed.
pub open spec fn contents_tree(c: Contents, ignore: Seq<String>) -> Result<
    (Seq<DirModel>, Seq<(Seq<char>, nat)>),
    IoError,
>
    decreases c, 0nat,
{
    match c {
        Contents::Unlisted(e) => Err(e),
        Contents::Listed(v) => entries_tree(v@, v@.len(), ignore),
    }
}

/// What the walk of the first `n` entries of `es` finds, as `contents_tree`.
pub open spec fn entries_tree(es: Seq<Entry>, n: nat, ignore: Seq<String>) -> Result<
    (Seq<DirModel>, Seq<(Seq<char>, nat)>),
    IoError,
>
    decreases es, n,
{
    if n == 0 || n > es.len() {
        Ok((Seq::empty(), Seq::empty()))
    } else {
        match entries_tree(es, (n - 1) as nat, ignore) {
            Err(e) => Err(e),
            Ok((ds, fs)) => {
                let e = es[n - 1];
                if skipped(e.name_of(), ignore) {
                    Ok((ds, fs))
                } else {
                    match e {
                        Entry::Dir { path, contents, .. } => match contents_tree(contents, ignore) {
                            Err(x) => Err(x),
                            Ok((sd, sf)) => Ok((ds.push(node(path@, sd, sf)), fs)),
                        },
                        Entry::File { path, lines, .. } => match lines {
                            Some(k) => Ok((ds, fs.push((path@, k as nat)))),
                            None => Ok((ds, fs)),
                        },
                        Entry::Other { .. } => Ok((ds, fs)),
                    }
                }
            },
        }
    }
}

/// Whether no node of the tree `m` holds an empty but present list: each
/// list of subdirectories or files is either absent or non-empty.
pub open spec fn compact(m: DirModel) -> bool
    decreases m, 0nat,
{
    &&& (m.dirs is None || m.dirs->0.len() > 0)
    &&& (m.files is None || m.files->0.len() > 0)
    &&& match m.dirs {
        Some(ds) => all_compact(ds, ds.len()),
        None => true,
    }
}

/// Whether the first `n` trees of `ds` are compact.
pub open spec fn all_compact(ds: Seq<DirModel>, n: nat) -> bool
    decreases ds, n,
{
    if n == 0 || n > ds.len() {
        true
    } else {
        all_compact(ds, (n - 1) as nat) && compact(ds[n - 1])
    }
}

/// Appending a tree leaves the trees before it as they were.
proof fn lemma_all_compact_push(ds: Seq<DirModel>, x: DirModel, n: nat)
    requires
        n <= ds.len(),
    ensures
        all_compact(ds.push(x), n) == all_compact(ds, n),
    decreases n,
{
    if n > 0 {
        lemma_all_compact_push(ds, x, (n - 1) as nat);
        assert(ds.push(x)[n - 1] == ds[n - 1]);
    }
}

/// Every node that a walk of `c` builds is compact.
pub proof fn lemma_contents_tree_compact(c: Contents, ignore: Seq<String>)
    ensures
        contents_tree(c, ignore) matches Ok((ds, fs)) ==> all_compact(ds, ds.len()),
    decreases c, 0nat,
{
    if let Contents::Listed(v) = c {
        lemma_entries_tree_compact(v@, v@.len(), ignore);
    }
}

/// Every node that a walk of the first `n` entries of `es` builds is compact.
pub proof fn lemma_entries_tree_compact(es: Seq<Entry>, n: nat, ignore: Seq<String>)
    ensures
        entries_tree(es, n, ignore) matches Ok((ds, fs)) ==> all_compact(ds, ds.len()),
    decreases es, n,
{
    if n > 0 && n <= es.len() {
        lemma_entries_tree_compact(es, (n - 1) as nat, ignore);
        if let Ok((ds, fs)) = entries_tree(es, (n - 1) as nat, ignore) {
            if let Entry::Dir { path, contents, .. } = es[n - 1] {
                lemma_contents_tree_compact(contents, ignore);
                if let Ok((sd, sf)) = contents_tree(contents, ignore) {
                    let x = node(path@, sd, sf);
                    lemma_all_compact_push(ds, x, ds.len());
                    assert(ds.push(x)[ds.len() as int] == x);
                    assert(compact(x));
                    assert(all_compact(ds.push(x), ds.len() + 1));
                }
            }
        }
    }
}

/// The tree of a walk never holds an empty but present list of files or of
/// subdirectories, at the root or below: a directory with no file left after
/// filtering has no list of files, and one with a file has a non-empty one.
pub proof fn lemma_tree_compact(path: Seq<char>, root: Contents, ignore: Seq<String>)
    ensures
        contents_tree(root, ignore) matches Ok((ds, fs)) ==> compact(node(path, ds, fs)),
{
    lemma_contents_tree_compact(root, ignore);
}

/// One file and its line count.
#[derive(Debug)]
pub struct FileReport {
    pub path: String,
    pub lines_count: usize,
}

impl FileReport {
    pub open spec fn model(&self) -> (Seq<char>, nat) {
        (self.path@, self.lines_count as nat)
    }
}

/// The files of one directory, in listing order.
#[derive(Debug)]
pub struct Files(pub Vec<FileReport>);

impl Files {
    pub open spec fn model(&self) -> Seq<(Seq<char>, nat)> {
        self.0@.map_values(|f: FileReport| f.model())
    }
}

/// The model of an optional list of files.
pub open spec fn files_model(f: Option<Files>) -> Option<Seq<(Seq<char>, nat)>> {
    match f {
        Some(fs) => Some(fs.model()),
        None => None,
    }
}

/// One directory below the root, with its subdirectories and files.
#[derive(Debug)]
pub struct Directory {
    pub root: String,
    pub sub_directories: Option<Vec<Directory>>,
    pub files: Option<Files>,
}

/// The model of a directory.
pub open spec fn dir_model(d: Directory) -> DirModel
    decreases d, 0nat,
{
    DirModel {
        root: d.root@,
        dirs: match d.sub_directories {
            Some(v) => Some(dirs_model(v@, v@.len())),
            None => None,
        },
        files: files_model(d.files),
    }
}

/// The models of the first `n` directories of `ds`.
pub open spec fn dirs_model(ds: Seq<Directory>, n: nat) -> Seq<DirModel>
    decreases ds, n,
{
    if n == 0 || n > ds.len() {
        Seq::empty()
    } else {
        dirs_model(ds, (n - 1) as nat).push(dir_model(ds[n - 1]))
    }
}

/// The model of an optional list of directories.
pub open spec fn opt_dirs_model(v: Option<Vec<Directory>>) -> Option<Seq<DirModel>> {
    match v {
        Some(ds) => Some(dirs_model(ds@, ds@.len())),
        None => None,
    }
}

/// Once a walk of entries has met a directory that could not be listed, the
/// entries after it change nothing.
proof fn lemma_entries_tree_stop(es: Seq<Entry>, m: nat, n: nat, ignore: Seq<String>)
    requires
        m <= n <= es.len(),
        entries_tree(es, m, ignore) is Err,
    ensures
        entries_tree(es, n, ignore) == entries_tree(es, m, ignore),
    decreases n - m,
{
    if m < n {
        lemma_entries_tree_stop(es, m, (n - 1) as nat, ignore);
    }
}

/// Appending a directory leaves the models of those before it as they were.
proof fn lemma_dirs_model_push(ds: Seq<Directory>, d: Directory, n: nat)
    requires
        n <= ds.len(),
    ensures
        dirs_model(ds.push(d), n) == dirs_model(ds, n),
    decreases n,
{
    if n > 0 {
        lemma_dirs_model_push(ds, d, (n - 1) as nat);
        assert(ds.push(d)[n - 1] == ds[n - 1]);
    }
}

/// The directory tree of a walk: the root's path, its subdirectories and
/// its files.
#[derive(Debug)]
pub struct Tree {
    pub root: String,
    pub directories: Option<Vec<Directory>>,
    pub files: Option<Files>,
}

impl Tree {
    /// The model of the tree, as a node for the root directory.
    pub open spec fn model(&self) -> DirModel {
        DirModel {
            root: self.root@,
            dirs: opt_dirs_model(self.directories),
            files: files_model(self.files),
        }
    }

    /// The tree of the directory at `path`, whose listing is `root`:
    /// hidden and ignored entries are left out, and so are files that could
    /// not be read; fails with the failure of the first directory, in walk
    /// order, that could not be listed.
    pub fn from_path(path: &String, root: &Contents, ignore: &[String]) -> (r: Result<Tree, IoError>)
        ensures
            match contents_tree(*root, ignore@) {
                Ok((ds, fs)) => r matches Ok(t) && t.model() == node(path@, ds, fs),
                Err(e) => r == Err::<Tree, IoError>(e),
            },
    {
        let root_path = path.clone();
        match Self::get_directory_contents(root, ignore) {
            Ok((directories, files)) => Ok(Tree { root: root_path, directories, files }),
            Err(e) => Err(e),
        }
    }

    fn get_directory_contents(dir: &Contents, ignore: &[String]) -> (r: Result<
        (Option<Vec<Directory>>, Option<Files>),
        IoError,
    >)
        ensures
            match contents_tree(*dir, ignore@) {
                Ok((ds, fs)) => r matches Ok((d, f)) && opt_dirs_model(d) == present(ds)
                    && files_model(f) == present(fs),
                Err(e) => r == Err::<(Option<Vec<Directory>>, Option<Files>), IoError>(e),
            },
        decreases dir, 1nat,
    {
        match dir {
            Contents::Unlisted(e) => Err(e.duplicate()),
            Contents::Listed(entries) => {
                let ghost es = entries@;
                let mut directories: Vec<Directory> = Vec::new();
                let mut files: Vec<FileReport> = Vec::new();
                let mut i: usize = 0;
                assert(files@.map_values(|f: FileReport| f.model()) =~= Seq::empty());
                while i < entries.len()
                    invariant
                        es == entries@,
                        0 <= i <= es.len(),
                        *dir == Contents::Listed(*entries),
                        entries_tree(es, i as nat, ignore@) == Ok::<
                            (Seq<DirModel>, Seq<(Seq<char>, nat)>),
                            IoError,
                        >(
                            (
                                dirs_model(directories@, directories@.len()),
                                files@.map_values(|f: FileReport| f.model()),
                            ),
                        ),
                    decreases es.len() - i,
                {
                    let entry = &entries[i];
                    if !should_skip(entry.name(), ignore) {
                        match entry {
                            Entry::Dir { path, contents, .. } => {
                                assert(decreases_to!(*dir => *contents)) by {
                                    assert(decreases_to!(*entries => entries@[i as int]));
                                };
                                match Self::get_directory(path, contents, ignore) {
                                    Ok(d) => {
                                        proof {
                                            lemma_dirs_model_push(
                                                directories@,
                                                d,
                                                directories@.len(),
                                            );
                                        }
                                        let ghost before = directories@;
                                        directories.push(d);
                                        assert(directories@[before.len() as int] == d);
                                        assert(dirs_model(directories@, directories@.len())
                                            == dirs_model(before, before.len()).push(
                                            dir_model(d),
                                        ));
                                    },
                                    Err(e) => {
                                        proof {
                                            lemma_entries_tree_stop(
                                                es,
                                                (i + 1) as nat,
                                                es.len(),
                                                ignore@,
                                            );
                                        }
                                        return Err(e);
                                    },
                                }
                            },
                            Entry::File { path, lines, .. } => {
                                if let Some(k) = lines {
                                    let report = Self::get_file_report(path, *k);
                                    let ghost before = files@;
                                    files.push(report);
                                    assert(files@.map_values(|f: FileReport| f.model())
                                        =~= before.map_values(|f: FileReport| f.model()).push(
                                        report.model(),
                                    ));
                                }
                            },
                            Entry::Other { .. } => {},
                        }
                    }
                    i += 1;
                }
                let d = if directories.len() == 0 {
                    None
                } else {
                    Some(directories)
                };
                let f = if files.len() == 0 {
                    None
                } else {
                    Some(Files(files))
                };
                Ok((d, f))
            },
        }
    }

    fn get_directory(path: &String, contents: &Contents, ignore: &[String]) -> (r: Result<
        Directory,
        IoError,
    >)
        ensures
            match contents_tree(*contents, ignore@) {
                Ok((ds, fs)) => r matches Ok(d) && dir_model(d) == node(path@, ds, fs),
                Err(e) => r == Err::<Directory, IoError>(e),
            },
        decreases contents, 2nat,
    {
        let root = path.clone();
        match Self::get_directory_contents(contents, ignore) {
            Ok((sub_directories, files)) => {
                let d = Directory { root, sub_directories, files };
                assert(dir_model(d).dirs == opt_dirs_model(d.sub_directories));
                Ok(d)
            },
            Err(e) => Err(e),
        }
    }

    fn get_file_report(path: &String, lines_count: usize) -> (r: FileReport)
        ensures
            r.model() == (path@, lines_count as nat),
    {
        FileReport { path: path.clone(), lines_count }
    }
}

/// The printed lines of the first `n` files of `fs`: each indented, with its
/// line count.
pub open spec fn files_text(fs: Seq<(Seq<char>, nat)>, n: nat) -> Seq<char>
    decreases n,
{
    if n == 0 || n > fs.len() {
        Seq::empty()
    } else {
        files_text(fs, (n - 1) as nat) + "    "@ + fs[n - 1].0 + ": "@ + decimal(fs[n - 1].1)
            + "\n"@
    }
}

/// The printed lines of an optional list of files, closed by an empty line.
pub open spec fn opt_files_text(f: Option<Seq<(Seq<char>, nat)>>) -> Seq<char> {
    match f {
        Some(fs) => files_text(fs, fs.len()) + "\n"@,
        None => Seq::empty(),
    }
}

/// The printed form of a directory below the root: its indented path, then
/// each subdirectory with its first line indented once more, then its files.
pub open spec fn dir_text(m: DirModel) -> Seq<char>
    decreases m, 0nat,
{
    "    "@ + m.root + "\n"@ + match m.dirs {
        Some(ds) => subdirs_text(ds, ds.len()),
        None => Seq::empty(),
    } + opt_files_text(m.files)
}

/// The printed forms of the first `n` subdirectories of `ds`, within their
/// parent.
pub open spec fn subdirs_text(ds: Seq<DirModel>, n: nat) -> Seq<char>
    decreases ds, n,
{
    if n == 0 || n > ds.len() {
        Seq::empty()
    } else {
        subdirs_text(ds, (n - 1) as nat) + "    "@ + dir_text(ds[n - 1]) + "\n"@
    }
}

/// The printed forms of the first `n` directories of `ds`, just below the root.
pub open spec fn top_dirs_text(ds: Seq<DirModel>, n: nat) -> Seq<char>
    decreases n,
{
    if n == 0 || n > ds.len() {
        Seq::empty()
    } else {
        top_dirs_text(ds, (n - 1) as nat) + dir_text(ds[n - 1])
    }
}

/// The printed form of a tree: the root's path, its directories, its files.
pub open spec fn tree_text(m: DirModel) -> Seq<char> {
    m.root + "\n"@ + match m.dirs {
        Some(ds) => top_dirs_text(ds, ds.len()),
        None => Seq::empty(),
    } + opt_files_text(m.files)
}

/// The models of the first `n` directories are those directories' models.
proof fn lemma_dirs_model_index(ds: Seq<Directory>, n: nat)
    requires
        n <= ds.len(),
    ensures
        dirs_model(ds, n).len() == n,
        forall|i: int| 0 <= i < n ==> #[trigger] dirs_model(ds, n)[i] == dir_model(ds[i]),
    decreases n,
{
    if n > 0 {
        lemma_dirs_model_index(ds, (n - 1) as nat);
    }
}

fn append_files(out: &mut String, files: &Files)
    ensures
        final(out)@ == old(out)@ + opt_files_text(Some(files.model())),
{
    let ghost start = out@;
    let ghost fs = files.model();
    let mut i: usize = 0;
    while i < files.0.len()
        invariant
            0 <= i <= files.0@.len(),
            fs == files.model(),
            fs.len() == files.0@.len(),
            out@ == start + files_text(fs, i as nat),
        decreases files.0@.len() - i,
    {
        let report = &files.0[i];
        append(out, "    ");
        append(out, report.path.as_str());
        append(out, ": ");
        append_decimal(out, report.lines_count);
        append(out, "\n");
        assert(fs[i as int] == report.model());
        assert(out@ =~= start + files_text(fs, (i + 1) as nat));
        i += 1;
    }
    append(out, "\n");
    assert(out@ =~= start + opt_files_text(Some(fs)));
}

fn append_opt_files(out: &mut String, files: &Option<Files>)
    ensures
        final(out)@ == old(out)@ + opt_files_text(files_model(*files)),
{
    if let Some(f) = files {
        append_files(out, f);
    } else {
        assert(out@ =~= out@ + opt_files_text(files_model(*files)));
    }
}

fn append_directory(out: &mut String, d: &Directory)
    ensures
        final(out)@ == old(out)@ + dir_text(dir_model(*d)),
    decreases d,
{
    let ghost start = out@;
    append(out, "    ");
    append(out, d.root.as_str());
    append(out, "\n");
    let ghost head = out@;
    if let Some(v) = &d.sub_directories {
        let ghost ds = dirs_model(v@, v@.len());
        proof {
            lemma_dirs_model_index(v@, v@.len());
        }
        let mut i: usize = 0;
        while i < v.len()
            invariant
                0 <= i <= v@.len(),
                d.sub_directories == Some(*v),
                ds == dirs_model(v@, v@.len()),
                ds.len() == v@.len(),
                forall|j: int| 0 <= j < v@.len() ==> #[trigger] ds[j] == dir_model(v@[j]),
                out@ == head + subdirs_text(ds, i as nat),
            decreases v@.len() - i,
        {
            assert(decreases_to!(*d => v@[i as int])) by {
                assert(decreases_to!(*d => d.sub_directories));
                assert(d.sub_directories->Some_0 == *v);
                assert(decreases_to!(d.sub_directories => d.sub_directories->Some_0));
                assert(decreases_to!(*v => v@[i as int]));
            };
            append(out, "    ");
            append_directory(out, &v[i]);
            append(out, "\n");
            assert(out@ =~= head + subdirs_text(ds, (i + 1) as nat));
            i += 1;
        }
    }
    append_opt_files(out, &d.files);
    assert(out@ =~= start + dir_text(dir_model(*d)));
}

impl Tree {
    /// The tree as indented text: the root's path, each directory below it
    /// with its path indented, then the files with their line counts.
    pub fn render(&self) -> (r: String)
        ensures
            r@ == tree_text(self.model()),
    {
        let mut out = String::new();
        append(&mut out, self.root.as_str());
        append(&mut out, "\n");
        let ghost head = out@;
        if let Some(v) = &self.directories {
            let ghost ds = dirs_model(v@, v@.len());
            proof {
                lemma_dirs_model_index(v@, v@.len());
            }
            let mut i: usize = 0;
            while i < v.len()
                invariant
                    0 <= i <= v@.len(),
                    ds == dirs_model(v@, v@.len()),
                    ds.len() == v@.len(),
                    forall|j: int| 0 <= j < v@.len() ==> #[trigger] ds[j] == dir_model(v@[j]),
                    out@ == head + top_dirs_text(ds, i as nat),
                decreases v@.len() - i,
            {
                append_directory(&mut out, &v[i]);
                assert(out@ =~= head + top_dirs_text(ds, (i + 1) as nat));
                i += 1;
            }
        }
        append_opt_files(&mut out, &self.files);
        assert(out@ =~= tree_text(self.model()));
        out
    }
}

} // verus!
