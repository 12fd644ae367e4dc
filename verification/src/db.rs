//! The chain resolver: discovers archives among a directory's entries,
//! walks the chain from the distinguished root to the head, folds each
//! archive's decoded content into one snapshot, and prepares new delta
//! archives at write time.  The whole of opening a document is specified
//! by `spec_open`; the executable resolver is proved equal to it.

use vstd::prelude::*;
use vstd::pervasive::VecAdditionalExecFns;
use crate::codec::archive_decode;
use crate::content::{Content, merge, unique_ids, lemma_merge_preserves_unique};
use crate::encode::{encode_content_evs, tasks_wf};
use crate::error::{OpenFocusError, OpenFocusErrorType};
use crate::events::{str_eq, clone_string};
use crate::names::{parse_name_spec, render_name, parse_archive_name, render_archive_name, ends_with_zip, lemma_name_round_trip};
use crate::task::TaskV;
use crate::util::{ID, all_id_chars};

verus! {

/// One directory entry handed to the resolver: the entry's file name and
/// the file's bytes.
#[derive(Debug)]
pub struct ArchiveFile {
    pub name: String,
    pub data: Vec<u8>,
}

pub struct ArchiveFileV {
    pub name: Seq<char>,
    pub data: Seq<u8>,
}

impl View for ArchiveFile {
    type V = ArchiveFileV;

    open spec fn view(&self) -> ArchiveFileV {
        ArchiveFileV { name: self.name@, data: self.data@ }
    }
}

impl DeepView for ArchiveFile {
    type V = ArchiveFileV;

    open spec fn deep_view(&self) -> ArchiveFileV {
        self.view()
    }
}

/// One archive of the chain: its file name, the chain metadata parsed from
/// it, and the file's bytes.
#[derive(Debug)]
pub struct Archive {
    pub name: String,
    pub date: String,
    pub parent_id: String,
    pub id: String,
    pub data: Vec<u8>,
}

pub struct ArchiveV {
    pub name: Seq<char>,
    pub date: Seq<char>,
    pub parent_id: Seq<char>,
    pub id: Seq<char>,
    pub data: Seq<u8>,
}

impl View for Archive {
    type V = ArchiveV;

    open spec fn view(&self) -> ArchiveV {
        ArchiveV {
            name: self.name@,
            date: self.date@,
            parent_id: self.parent_id@,
            id: self.id@,
            data: self.data@,
        }
    }
}

impl DeepView for Archive {
    type V = ArchiveV;

    open spec fn deep_view(&self) -> ArchiveV {
        self.view()
    }
}

/// The timestamp that marks the root archive.
pub open spec fn root_stamp() -> Seq<char> {
    "00000000000000"@
}

/// The archives among a directory's entries: entries not ending in `.zip`
/// are ignored; an entry that ends in `.zip` but fails the name grammar is
/// a parse error for the whole open.
pub open spec fn parse_files_spec(files: Seq<ArchiveFileV>) -> Option<Seq<ArchiveV>>
    decreases files.len(),
{
    if files.len() == 0 {
        Some(Seq::empty())
    } else {
        let f = files[0];
        let rest = files.subrange(1, files.len() as int);
        if !(f.name.len() >= 4 && f.name.subrange(f.name.len() - 4, f.name.len() as int)
            == ".zip"@) {
            parse_files_spec(rest)
        } else {
            match parse_name_spec(f.name) {
                None => None,
                Some((d, p, i)) => match parse_files_spec(rest) {
                    None => None,
                    Some(archs) => Some(
                        seq![ArchiveV { name: f.name, date: d, parent_id: p, id: i, data: f.data }]
                            + archs,
                    ),
                },
            }
        }
    }
}

pub open spec fn count_roots(archs: Seq<ArchiveV>) -> int
    decreases archs.len(),
{
    if archs.len() == 0 {
        0
    } else {
        (if archs[0].date == root_stamp() {
            1int
        } else {
            0int
        }) + count_roots(archs.subrange(1, archs.len() as int))
    }
}

/// The position of the first root archive, or -1 if there is none.
pub open spec fn first_root(archs: Seq<ArchiveV>) -> int
    decreases archs.len(),
{
    if archs.len() == 0 {
        -1
    } else if archs[0].date == root_stamp() {
        0
    } else {
        let r = first_root(archs.subrange(1, archs.len() as int));
        if r == -1 {
            -1
        } else {
            r + 1
        }
    }
}

/// Two archives extend the same parent: the chain is forked.
pub open spec fn has_fork(archs: Seq<ArchiveV>) -> bool {
    exists|j: int, k: int|
        0 <= j < k < archs.len() && (#[trigger] archs[j]).parent_id == (#[trigger] archs[k]).parent_id
}

/// The position of the first archive extending `id`, or -1 if none does.
pub open spec fn succ_index(archs: Seq<ArchiveV>, id: Seq<char>) -> int
    decreases archs.len(),
{
    if archs.len() == 0 {
        -1
    } else if archs[0].parent_id == id {
        0
    } else {
        let r = succ_index(archs.subrange(1, archs.len() as int), id);
        if r == -1 {
            -1
        } else {
            r + 1
        }
    }
}

proof fn lemma_first_root_props(archs: Seq<ArchiveV>)
    ensures
        first_root(archs) >= -1,
        first_root(archs) == -1 ==> (forall|k: int|
            0 <= k < archs.len() ==> (#[trigger] archs[k]).date != root_stamp()),
        first_root(archs) >= 0 ==> {
            let i = first_root(archs);
            &&& 0 <= i < archs.len()
            &&& archs[i].date == root_stamp()
            &&& forall|k: int| 0 <= k < i ==> (#[trigger] archs[k]).date != root_stamp()
        },
        count_roots(archs) == 0 <==> first_root(archs) == -1,
    decreases archs.len(),
{
    if archs.len() > 0 {
        let rest = archs.subrange(1, archs.len() as int);
        lemma_first_root_props(rest);
        lemma_count_roots_nonneg(rest);
        assert(forall|k: int| 1 <= k < archs.len() ==> (#[trigger] archs[k]) == rest[k - 1]);
    }
}

proof fn lemma_count_roots_nonneg(archs: Seq<ArchiveV>)
    ensures
        count_roots(archs) >= 0,
    decreases archs.len(),
{
    if archs.len() > 0 {
        lemma_count_roots_nonneg(archs.subrange(1, archs.len() as int));
    }
}

proof fn lemma_first_root_unique(archs: Seq<ArchiveV>, i: int)
    requires
        0 <= i < archs.len(),
        archs[i].date == root_stamp(),
        forall|k: int| 0 <= k < i ==> (#[trigger] archs[k]).date != root_stamp(),
    ensures
        first_root(archs) == i,
    decreases archs.len(),
{
    if archs[0].date == root_stamp() {
        assert(i == 0);
    } else {
        let rest = archs.subrange(1, archs.len() as int);
        assert(rest[i - 1] == archs[i]);
        assert(forall|k: int| 0 <= k < i - 1 ==> (#[trigger] rest[k]) == archs[k + 1]);
        lemma_first_root_unique(rest, i - 1);
    }
}

proof fn lemma_succ_props(archs: Seq<ArchiveV>, id: Seq<char>)
    ensures
        succ_index(archs, id) >= -1,
        succ_index(archs, id) == -1 ==> (forall|k: int|
            0 <= k < archs.len() ==> (#[trigger] archs[k]).parent_id != id),
        succ_index(archs, id) >= 0 ==> {
            let i = succ_index(archs, id);
            &&& 0 <= i < archs.len()
            &&& archs[i].parent_id == id
            &&& forall|k: int| 0 <= k < i ==> (#[trigger] archs[k]).parent_id != id
        },
    decreases archs.len(),
{
    if archs.len() > 0 && archs[0].parent_id != id {
        let rest = archs.subrange(1, archs.len() as int);
        lemma_succ_props(rest, id);
        assert(forall|k: int| 1 <= k < archs.len() ==> (#[trigger] archs[k]) == rest[k - 1]);
    }
}

proof fn lemma_succ_unique(archs: Seq<ArchiveV>, id: Seq<char>, i: int)
    requires
        0 <= i < archs.len(),
        archs[i].parent_id == id,
        forall|k: int| 0 <= k < i ==> (#[trigger] archs[k]).parent_id != id,
    ensures
        succ_index(archs, id) == i,
    decreases archs.len(),
{
    if archs[0].parent_id == id {
        assert(i == 0);
    } else {
        let rest = archs.subrange(1, archs.len() as int);
        assert(rest[i - 1] == archs[i]);
        assert(forall|k: int| 0 <= k < i - 1 ==> (#[trigger] rest[k]) == archs[k + 1]);
        lemma_succ_unique(rest, id, i - 1);
    }
}

/// Walking the chain from the archive at `cur`: mark it visited, fold its
/// decoded content into the snapshot, and continue with the unique archive
/// extending it.  The walk ends when nothing extends the current archive;
/// reaching an already-visited archive is a cycle; the fuel (at most one
/// move per archive) never runs out on a fork-free chain.
pub open spec fn walk_spec(
    archs: Seq<ArchiveV>,
    cur: int,
    visited: Seq<bool>,
    snap: Seq<TaskV>,
    fuel: nat,
) -> Result<(Seq<TaskV>, int, Seq<bool>), OpenFocusErrorType>
    decreases fuel,
{
    let visited2 = visited.update(cur, true);
    match archive_decode(archs[cur].data) {
        None => Err(OpenFocusErrorType::Parse),
        Some(delta) => {
            let snap2 = merge(snap, delta);
            let j = succ_index(archs, archs[cur].id);
            if j == -1 {
                Ok((snap2, cur, visited2))
            } else if visited2[j] {
                Err(OpenFocusErrorType::InvalidChain)
            } else if fuel == 0 {
                Err(OpenFocusErrorType::InvalidChain)
            } else {
                walk_spec(archs, j, visited2, snap2, (fuel - 1) as nat)
            }
        },
    }
}

/// What opening a directory yields: the folded snapshot, the head archive's
/// id, and the archive list — or the error that stops the open.
pub open spec fn spec_open(files: Seq<ArchiveFileV>) -> Result<
    (Seq<TaskV>, Seq<char>, Seq<ArchiveV>),
    OpenFocusErrorType,
> {
    match parse_files_spec(files) {
        None => Err(OpenFocusErrorType::Parse),
        Some(archs) => {
            if count_roots(archs) == 0 {
                Err(OpenFocusErrorType::NotFound)
            } else if count_roots(archs) > 1 {
                Err(OpenFocusErrorType::InvalidChain)
            } else if has_fork(archs) {
                Err(OpenFocusErrorType::InvalidChain)
            } else {
                let root = first_root(archs);
                match walk_spec(
                    archs,
                    root,
                    Seq::new(archs.len(), |i: int| false),
                    Seq::empty(),
                    archs.len(),
                ) {
                    Err(k) => Err(k),
                    Ok((snap, head, visited)) => {
                        if forall|k: int| 0 <= k < archs.len() ==> visited[k] {
                            Ok((snap, archs[head].id, archs))
                        } else {
                            Err(OpenFocusErrorType::InvalidChain)
                        }
                    },
                }
            }
        },
    }
}

/// The position of the first archive whose parent is `id`, scanned directly.
fn find_successor(archives: &Vec<Archive>, id: &String) -> (r: Option<usize>)
    ensures
        r matches Some(i) ==> i < archives.len() && succ_index(archives.deep_view(), id@)
            == i as int,
        r is None ==> succ_index(archives.deep_view(), id@) == -1,
{
    let ghost s = archives.deep_view();
    let mut i: usize = 0;
    while i < archives.len()
        invariant
            i <= archives.len(),
            s == archives.deep_view(),
            forall|k: int| 0 <= k < i ==> (#[trigger] s[k]).parent_id != id@,
        decreases archives.len() - i,
    {
        proof {
            assert(s[i as int] == archives@[i as int]@);
        }
        if str_eq(archives[i].parent_id.as_str(), id.as_str()) {
            proof {
                lemma_succ_unique(s, id@, i as int);
            }
            return Some(i);
        }
        i = i + 1;
    }
    proof {
        lemma_succ_props(s, id@);
        if succ_index(s, id@) >= 0 {
            assert(false);
        }
    }
    None
}

/// A document handle: the archives found on open, the id of the archive at
/// the chain's head, and the snapshot folded from the whole chain.
#[derive(Debug)]
pub struct Database {
    head_id: Option<ID>,
    archives: Vec<Archive>,
    content: Content,
}

impl Database {
    /// The folded snapshot.
    pub closed spec fn snapshot(self) -> Seq<TaskV> {
        self.content@
    }

    /// The id of the most recently folded or committed archive.
    pub closed spec fn head(self) -> Option<Seq<char>> {
        match self.head_id {
            Some(h) => Some(h@),
            None => None,
        }
    }

    /// The archives known to this handle.
    pub closed spec fn archive_list(self) -> Seq<ArchiveV> {
        self.archives.deep_view()
    }

    /// The handle's own invariant: a head id, when present, is a
    /// well-formed 11-character identifier.
    pub closed spec fn inv(self) -> bool {
        match self.head_id {
            Some(h) => h@.len() == 11 && crate::util::all_id_chars(h@),
            None => true,
        }
    }

    /// Opens a document from its directory entries: parses the archive
    /// names, rejects forked or disconnected chains, and folds the chain's
    /// contents from the root into one snapshot.
    pub fn new(files: Vec<ArchiveFile>) -> (r: Result<Database, OpenFocusError>)
        ensures
            r matches Ok(db) ==> spec_open(files.deep_view()) matches Ok(o) && db.snapshot() == o.0
                && db.head() == Some(o.1) && db.archive_list() == o.2 && unique_ids(db.snapshot())
                && db.inv(),
            r matches Err(e) ==> spec_open(files.deep_view()) matches Err(k) && e.kind == k,
    {
        let ghost filesv = files.deep_view();
        // parse the entries that look like archives
        let mut archives: Vec<Archive> = Vec::new();
        let mut fi: usize = 0;
        proof {
            assert(archives.deep_view() =~= Seq::<ArchiveV>::empty());
            assert(filesv.subrange(0, filesv.len() as int) =~= filesv);
        }
        while fi < files.len()
            invariant
                fi <= files.len(),
                filesv == files.deep_view(),
                parse_files_spec(filesv) == match parse_files_spec(
                    filesv.subrange(fi as int, filesv.len() as int),
                ) {
                    None => None::<Seq<ArchiveV>>,
                    Some(x) => Some(archives.deep_view() + x),
                },
                forall|x: int|
                    0 <= x < archives.len() ==> (#[trigger] archives.deep_view()[x]).id.len() == 11
                        && all_id_chars(archives.deep_view()[x].id),
            decreases files.len() - fi,
        {
            let ghost rest = filesv.subrange(fi as int, filesv.len() as int);
            let ghost pre = archives.deep_view();
            proof {
                assert(rest[0] == filesv[fi as int]);
                assert(filesv[fi as int] == files@[fi as int]@);
                assert(rest.subrange(1, rest.len() as int) =~= filesv.subrange(
                    fi as int + 1,
                    filesv.len() as int,
                ));
            }
            let name = &files[fi].name;
            if ends_with_zip(name.as_str()) {
                match parse_archive_name(name.as_str()) {
                    None => {
                        return Err(
                            OpenFocusError::with_detail(
                                OpenFocusErrorType::Parse,
                                clone_string(name),
                            ),
                        );
                    },
                    Some((date, parent_id, id)) => {
                        proof {
                            crate::names::lemma_parse_name_wf(filesv[fi as int].name);
                        }
                        let arch = Archive {
                            name: clone_string(name),
                            date,
                            parent_id,
                            id,
                            data: crate::events::clone_bytes(&files[fi].data),
                        };
                        archives.push(arch);
                        proof {
                            assert(archives.deep_view() =~= pre.push(archives@[archives.len()
                                - 1]@));
                        }
                    },
                }
            }
            proof {
                let rest2 = filesv.subrange(fi as int + 1, filesv.len() as int);
                if archives.deep_view().len() > pre.len() {
                    let av = archives.deep_view().last();
                    match parse_files_spec(rest2) {
                        None => {},
                        Some(y) => {
                            assert(pre + (seq![av] + y) =~= archives.deep_view() + y);
                        },
                    }
                }
            }
            fi = fi + 1;
        }
        proof {
            assert(filesv.subrange(filesv.len() as int, filesv.len() as int)
                =~= Seq::<ArchiveFileV>::empty());
            assert(archives.deep_view() + Seq::<ArchiveV>::empty() =~= archives.deep_view());
        }
        let ghost archsv = archives.deep_view();
        assert(parse_files_spec(filesv) == Some(archsv));
        proof {
            assert(archsv.subrange(0, archsv.len() as int) =~= archsv);
        }

        assert(forall|x: int|
            0 <= x < archsv.len() ==> (#[trigger] archsv[x]).id.len() == 11 && all_id_chars(
                archsv[x].id,
            ));

        // the chain must have exactly one root
        let mut root: usize = 0;
        let mut found_root = false;
        let mut roots: usize = 0;
        let mut k: usize = 0;
        while k < archives.len()
            invariant
                k <= archives.len(),
                archsv == archives.deep_view(),
                roots <= k,
                count_roots(archsv) == roots + count_roots(
                    archsv.subrange(k as int, archsv.len() as int),
                ),
                found_root ==> root < k && archsv[root as int].date == root_stamp() && (forall|
                    j: int,
                |
                    0 <= j < root ==> (#[trigger] archsv[j]).date != root_stamp()),
                !found_root ==> roots == 0 && (forall|j: int|
                    0 <= j < k ==> (#[trigger] archsv[j]).date != root_stamp()),
            decreases archives.len() - k,
        {
            let ghost rest = archsv.subrange(k as int, archsv.len() as int);
            proof {
                assert(rest[0] == archsv[k as int]);
                assert(archsv[k as int] == archives@[k as int]@);
                assert(rest.subrange(1, rest.len() as int) =~= archsv.subrange(
                    k as int + 1,
                    archsv.len() as int,
                ));
            }
            if str_eq(archives[k].date.as_str(), "00000000000000") {
                proof {
                    reveal_strlit("00000000000000");
                }
                if !found_root {
                    root = k;
                    found_root = true;
                }
                roots = roots + 1;
            }
            k = k + 1;
        }
        proof {
            assert(archsv.subrange(archsv.len() as int, archsv.len() as int)
                =~= Seq::<ArchiveV>::empty());
        }
        if roots == 0 {
            proof {
                lemma_first_root_props(archsv);
            }
            return Err(OpenFocusError::new(OpenFocusErrorType::NotFound));
        }
        if roots > 1 {
            return Err(OpenFocusError::new(OpenFocusErrorType::InvalidChain));
        }
        proof {
            lemma_first_root_unique(archsv, root as int);
            lemma_first_root_props(archsv);
        }

        // a fork (two archives extending the same parent) is a corrupt chain
        let mut j: usize = 0;
        while j < archives.len()
            invariant
                j <= archives.len(),
                archsv == archives.deep_view(),
                filesv == files.deep_view(),
                parse_files_spec(filesv) == Some(archsv),
                count_roots(archsv) == 1,
                forall|a: int, b: int|
                    0 <= a < b < archsv.len() && a < j ==> (#[trigger] archsv[a]).parent_id != (
                    #[trigger] archsv[b]).parent_id,
            decreases archives.len() - j,
        {
            let mut m: usize = j + 1;
            while m < archives.len()
                invariant
                    j < m <= archives.len() || j + 1 == m,
                    j < archives.len(),
                    archsv == archives.deep_view(),
                    filesv == files.deep_view(),
                    parse_files_spec(filesv) == Some(archsv),
                    count_roots(archsv) == 1,
                    forall|b: int|
                        j < b < m ==> (#[trigger] archsv[b]).parent_id != archsv[j as int].parent_id,
                decreases archives.len() - m,
            {
                if str_eq(archives[j].parent_id.as_str(), archives[m].parent_id.as_str()) {
                    proof {
                        assert(archsv[j as int] == archives@[j as int]@);
                        assert(archsv[m as int] == archives@[m as int]@);
                        assert(has_fork(archsv));
                    }
                    return Err(OpenFocusError::new(OpenFocusErrorType::InvalidChain));
                }
                proof {
                    assert(archsv[m as int] == archives@[m as int]@);
                    assert(archsv[j as int] == archives@[j as int]@);
                }
                m = m + 1;
            }
            j = j + 1;
        }
        assert(!has_fork(archsv));

        // walk the chain from the root, folding each archive's contents
        let n = archives.len();
        let mut visited: Vec<bool> = Vec::new();
        let mut vi: usize = 0;
        while vi < n
            invariant
                vi <= n,
                visited.len() == vi,
                forall|x: int| 0 <= x < vi ==> !(#[trigger] visited@[x]),
            decreases n - vi,
        {
            visited.push(false);
            vi = vi + 1;
        }
        proof {
            assert(visited@ =~= Seq::new(archsv.len(), |i: int| false));
        }
        let ghost target = walk_spec(
            archsv,
            root as int,
            Seq::new(archsv.len(), |i: int| false),
            Seq::empty(),
            archsv.len(),
        );
        let mut snap = Content::new();
        let mut cur: usize = root;
        let mut fuel: usize = n;
        let head: usize;
        loop
            invariant_except_break
                archsv == archives.deep_view(),
                filesv == files.deep_view(),
                parse_files_spec(filesv) == Some(archsv),
                count_roots(archsv) == 1,
                !has_fork(archsv),
                first_root(archsv) == root as int,
                archives.len() == n,
                visited.len() == n,
                cur < n,
                !visited@[cur as int],
                unique_ids(snap@),
                target == walk_spec(archsv, cur as int, visited@, snap@, fuel as nat),
                target == walk_spec(
                    archsv,
                    root as int,
                    Seq::new(archsv.len(), |i: int| false),
                    Seq::empty(),
                    archsv.len(),
                ),
            ensures
                unique_ids(snap@),
                target matches Ok(o) && o.0 == snap@ && o.1 == head as int && o.2 == visited@,
                visited.len() == n,
                head < n,
            decreases fuel,
        {
            let ghost pre_visited = visited@;
            let ghost pre_snap = snap@;
            visited.set(cur, true);
            let delta = match crate::codec::parse(archives[cur].data.as_slice()) {
                Ok(d) => d,
                Err(_) => {
                    proof {
                        assert(archsv[cur as int] == archives@[cur as int]@);
                        assert(target == Err::<(Seq<TaskV>, int, Seq<bool>), _>(
                            OpenFocusErrorType::Parse,
                        ));
                    }
                    return Err(OpenFocusError::new(OpenFocusErrorType::Parse));
                },
            };
            proof {
                assert(archsv[cur as int] == archives@[cur as int]@);
                lemma_merge_preserves_unique(pre_snap, delta@);
            }
            snap.update(delta);

            // find the unique archive extending the current one
            let id_here = clone_string(&archives[cur].id);
            proof {
                assert(id_here@ == archsv[cur as int].id);
            }
            match find_successor(&archives, &id_here) {
                None => {
                    head = cur;
                    break;
                },
                Some(nxt) => {
                    if visited[nxt] {
                        return Err(OpenFocusError::new(OpenFocusErrorType::InvalidChain));
                    }
                    if fuel == 0 {
                        return Err(OpenFocusError::new(OpenFocusErrorType::InvalidChain));
                    }
                    fuel = fuel - 1;
                    cur = nxt;
                },
            }
        }

        // the chain must reach every archive: an archive whose parent never
        // appears is a dangling reference, not a valid document
        let mut c: usize = 0;
        while c < n
            invariant
                c <= n,
                archsv == archives.deep_view(),
                filesv == files.deep_view(),
                parse_files_spec(filesv) == Some(archsv),
                count_roots(archsv) == 1,
                !has_fork(archsv),
                first_root(archsv) == root as int,
                archsv.len() == n,
                visited.len() == n,
                target == walk_spec(
                    archsv,
                    root as int,
                    Seq::new(archsv.len(), |i: int| false),
                    Seq::empty(),
                    archsv.len(),
                ),
                target matches Ok(o) && o.0 == snap@ && o.1 == head as int && o.2 == visited@,
                forall|x: int| 0 <= x < c ==> (#[trigger] visited@[x]),
            decreases n - c,
        {
            if !visited[c] {
                return Err(OpenFocusError::new(OpenFocusErrorType::InvalidChain));
            }
            c = c + 1;
        }

        let head_id = clone_string(&archives[head].id);
        proof {
            assert(archsv[head as int] == archives@[head as int]@);
        }
        Ok(Database { head_id: Some(head_id), archives, content: snap })
    }

    /// A read-only view of the folded snapshot.  Mutation happens by
    /// building a new `Content` delta and writing it.
    pub fn content(&self) -> (r: &Content)
        ensures
            r@ == self.snapshot(),
    {
        &self.content
    }

    /// Prepares a delta for the document: a fresh archive, named with the
    /// current time, the head archive as its parent and a fresh id, holding
    /// the encoded delta.  Nothing is recorded until `commit`.
    pub fn write(&self, delta: &Content) -> (r: Result<Archive, OpenFocusError>)
        requires
            tasks_wf(delta@),
            self.inv(),
        ensures
            r matches Ok(a) ==> {
                &&& self.head() == Some(a.parent_id@)
                &&& a.id@.len() == 11 && all_id_chars(a.id@)
                &&& a.date@.len() == 14 && crate::digits::all_digits(a.date@)
                &&& a.date@ != root_stamp()
                &&& a.name@ == render_name(a.date@, a.parent_id@, a.id@)
                &&& parse_name_spec(a.name@) == Some((a.date@, a.parent_id@, a.id@))
                &&& crate::xmlio::xml_render(encode_content_evs(delta@)) is Some
                &&& crate::zipio::zip_entry(a.data@) == crate::xmlio::xml_render(
                    encode_content_evs(delta@),
                )
            },
            r matches Err(e) ==> (e.kind == OpenFocusErrorType::InvalidArgument && self.head() is None)
                || (e.kind == OpenFocusErrorType::Unknown && self.head() is Some),
            (self.head() is Some && (crate::xmlio::xml_render(encode_content_evs(delta@))
                matches Some(x) && x.len() < 0xFFFF_0000)) ==> r is Ok,
    {
        let parent_id = match &self.head_id {
            Some(h) => clone_string(h),
            None => {
                return Err(OpenFocusError::new(OpenFocusErrorType::InvalidArgument));
            },
        };
        let id = crate::util::generate_id();
        let now = crate::time::now_timestamp();
        let date = crate::time::format_stamp14(&now);
        proof {
            crate::time::lemma_stamp14_wf(now);
        }
        let data = match crate::encode::encode_archive(delta) {
            Ok(d) => d,
            Err(e) => {
                return Err(e);
            },
        };
        let name = render_archive_name(date.as_str(), parent_id.as_str(), id.as_str());
        proof {
            lemma_name_round_trip(date@, parent_id@, id@);
        }
        Ok(Archive { name, date, parent_id, id, data })
    }

    /// Records an archive that has been durably written: appends it to the
    /// archive list and advances the head.  The snapshot is left as it was
    /// folded at open time; a caller that needs read-after-write visibility
    /// folds the delta itself or reopens the document.
    pub fn commit(&mut self, a: Archive)
        requires
            a.id@.len() == 11,
            crate::util::all_id_chars(a.id@),
        ensures
            final(self).inv(),
            final(self).head() == Some(a.id@),
            final(self).archive_list() == old(self).archive_list().push(a@),
            final(self).snapshot() == old(self).snapshot(),
    {
        let ghost pre = self.archives.deep_view();
        self.head_id = Some(clone_string(&a.id));
        let ghost av = a@;
        self.archives.push(a);
        proof {
            assert(self.archives.deep_view() =~= pre.push(av));
        }
    }
}

/// Opening a directory with archives but no root fails with the not-found
/// error, whatever the archives hold.
pub proof fn lemma_no_root_not_found(files: Seq<ArchiveFileV>)
    requires
        parse_files_spec(files) matches Some(archs) && count_roots(archs) == 0,
    ensures
        spec_open(files) == Err::<(Seq<TaskV>, Seq<char>, Seq<ArchiveV>), _>(
            OpenFocusErrorType::NotFound,
        ),
{
}

/// Two archives extending the same parent make every open fail; when the
/// root is unique the failure is the invalid-chain error, never a silent
/// choice between the two.
pub proof fn lemma_fork_detected(files: Seq<ArchiveFileV>)
    requires
        parse_files_spec(files) matches Some(archs) && has_fork(archs),
    ensures
        spec_open(files) is Err,
        (parse_files_spec(files) matches Some(archs) && count_roots(archs) == 1) ==> spec_open(
            files,
        ) == Err::<(Seq<TaskV>, Seq<char>, Seq<ArchiveV>), _>(OpenFocusErrorType::InvalidChain),
{
    let archs = parse_files_spec(files)->Some_0;
    lemma_count_roots_nonneg(archs);
}

/// When an open succeeds, the fold started at an archive bearing the root
/// stamp — wherever that archive stood in the directory listing.
pub proof fn lemma_fold_starts_at_root(files: Seq<ArchiveFileV>)
    requires
        spec_open(files) is Ok,
    ensures
        parse_files_spec(files) matches Some(archs) && archs[first_root(archs)].date
            == root_stamp(),
{
    let archs = parse_files_spec(files)->Some_0;
    lemma_first_root_props(archs);
    lemma_count_roots_nonneg(archs);
}

} // verus!
