//! Choosing which version of each installed mod is in use, and taking the mod's
//! details from that version's metadata.
use vstd::prelude::*;

verus! {

/// A mod's version number.
#[derive(Debug, Clone, Copy, PartialEq, Eq, Structural)]
pub struct Version {
    pub major: u32,
    pub minor: u32,
    pub patch: u32,
}

/// `a` comes no later than `b`: major, then minor, then patch number.
pub open spec fn version_le(a: Version, b: Version) -> bool {
    a.major < b.major || (a.major == b.major && (a.minor < b.minor || (a.minor == b.minor
        && a.patch <= b.patch)))
}

pub fn version_le_exec(a: Version, b: Version) -> (r: bool)
    ensures
        r == version_le(a, b),
{
    a.major < b.major || (a.major == b.major && (a.minor < b.minor || (a.minor == b.minor
        && a.patch <= b.patch)))
}

/// Which version of a mod is selected.
#[derive(Debug, Clone, Copy, PartialEq, Eq, Structural)]
pub enum SelectedVersion {
    /// The newest version, which was known when it was selected.
    Latest(Version),
    /// A version the user chose.
    Specific(Version),
    /// The newest version, not yet looked up where it holds `None`.
    LatestIndirect(Option<Version>),
}

/// Where a mod has to be installed.
#[derive(Debug, Clone, Copy, PartialEq, Eq, Structural)]
pub enum SyncMode {
    /// Installed on neither side.
    Unsynced,
    ServerOnly,
    ClientOnly,
    ServerAndClient,
}

/// What a mod's file says of one of its versions.
#[derive(Debug, Clone, PartialEq, Eq)]
pub struct Metadata {
    pub name: String,
    pub author: Option<String>,
    pub description: Option<String>,
    pub game_build: Option<String>,
    pub sync: Option<SyncMode>,
    pub homepage: Option<String>,
    pub download: Option<String>,
}

/// One available version of a mod.
#[derive(Debug, Clone, PartialEq, Eq)]
pub struct GameModVersion {
    pub version: Version,
    pub file_name: String,
    pub metadata: Option<Metadata>,
}

/// The details shown for a mod, taken from its selected version.
#[derive(Debug, Clone, PartialEq, Eq)]
pub struct ModInfo {
    pub name: String,
    pub author: Option<String>,
    pub description: Option<String>,
    pub game_build: Option<String>,
    pub sync: SyncMode,
    pub homepage: Option<String>,
    pub download: Option<String>,
}

/// An installed mod and its available versions.
#[derive(Debug)]
pub struct GameMod {
    pub mod_id: String,
    pub versions: Vec<GameModVersion>,
    pub selected_version: SelectedVersion,
    pub info: ModInfo,
    /// The size in bytes of the selected version's file; set by whoever reads the file.
    pub size: u64,
}

/// The mods the loader knows of.
pub struct AppData {
    pub game_mods: Vec<GameMod>,
}

/// No version number is available twice.
pub open spec fn versions_unique(vs: Seq<GameModVersion>) -> bool {
    forall|i: int, j: int| 0 <= i < vs.len() && 0 <= j < vs.len() && i != j ==> vs[i].version != vs[j].version
}

/// No mod is listed twice, and no mod lists a version twice.
pub open spec fn mods_wf(mods: Seq<GameMod>) -> bool {
    &&& forall|i: int, j: int|
        0 <= i < mods.len() && 0 <= j < mods.len() && i != j ==> mods[i].mod_id@ != mods[j].mod_id@
    &&& forall|i: int| 0 <= i < mods.len() ==> versions_unique(#[trigger] mods[i].versions@)
}

impl AppData {
    pub open spec fn wf(&self) -> bool {
        mods_wf(self.game_mods@)
    }
}

/// The version numbers of `vs`, in order.
pub open spec fn version_keys(vs: Seq<GameModVersion>) -> Seq<Version> {
    vs.map_values(|v: GameModVersion| v.version)
}

/// The newest of a non-empty sequence of versions.
pub open spec fn max_version(vs: Seq<Version>) -> Version
    recommends
        vs.len() > 0,
    decreases vs.len(),
{
    if vs.len() <= 1 {
        vs[0]
    } else {
        let m = max_version(vs.drop_last());
        if version_le(m, vs.last()) {
            vs.last()
        } else {
            m
        }
    }
}

/// A mod whose newest version was still to be looked up gets it; others stay as they are.
pub open spec fn pick(m: GameMod) -> GameMod {
    if m.selected_version == SelectedVersion::LatestIndirect(None) {
        GameMod {
            selected_version: SelectedVersion::LatestIndirect(
                Some(max_version(version_keys(m.versions@))),
            ),
            ..m
        }
    } else {
        m
    }
}

/// The mods that have a version, in order, each with its pending selection resolved.
pub open spec fn auto_picked(s: Seq<GameMod>) -> Seq<GameMod>
    decreases s.len(),
{
    if s.len() == 0 {
        Seq::empty()
    } else {
        let r = auto_picked(s.drop_last());
        if s.last().versions@.len() > 0 {
            r.push(pick(s.last()))
        } else {
            r
        }
    }
}

/// Each mod that picking keeps has the identifier and versions of a mod it was given.
proof fn lemma_auto_picked_origin(s: Seq<GameMod>)
    ensures
        forall|k: int|
            0 <= k < auto_picked(s).len() ==> exists|i: int|
                0 <= i < s.len() && (#[trigger] auto_picked(s)[k]).mod_id == s[i].mod_id
                    && auto_picked(s)[k].versions == s[i].versions,
    decreases s.len(),
{
    if s.len() > 0 {
        let t = s.drop_last();
        lemma_auto_picked_origin(t);
        assert forall|k: int| 0 <= k < auto_picked(s).len() implies exists|i: int|
            0 <= i < s.len() && (#[trigger] auto_picked(s)[k]).mod_id == s[i].mod_id
                && auto_picked(s)[k].versions == s[i].versions by {
            if k < auto_picked(t).len() {
                assert(auto_picked(s)[k] == auto_picked(t)[k]);
                let i = choose|i: int|
                    0 <= i < t.len() && auto_picked(t)[k].mod_id == t[i].mod_id
                        && auto_picked(t)[k].versions == t[i].versions;
                assert(s[i] == t[i]);
            } else {
                assert(auto_picked(s)[k] == pick(s.last()));
                assert(s[s.len() - 1] == s.last());
            }
        }
    }
}

/// Picking keeps the mods' identifiers and version lists free of repeats.
pub proof fn lemma_auto_picked_wf(s: Seq<GameMod>)
    requires
        mods_wf(s),
    ensures
        mods_wf(auto_picked(s)),
    decreases s.len(),
{
    if s.len() > 0 {
        let t = s.drop_last();
        assert(mods_wf(t)) by {
            assert forall|i: int| 0 <= i < t.len() implies versions_unique(#[trigger] t[i].versions@) by {
                assert(t[i] == s[i]);
            }
        }
        lemma_auto_picked_wf(t);
        lemma_auto_picked_origin(t);
        lemma_auto_picked_origin(s);
        let r = auto_picked(s);
        let x = s.last();
        assert(s[s.len() - 1] == x);
        if x.versions@.len() > 0 {
            let rt = auto_picked(t);
            assert(r == rt.push(pick(x)));
            assert forall|k: int| 0 <= k < rt.len() implies rt[k].mod_id@ != x.mod_id@ by {
                let i = choose|i: int|
                    0 <= i < t.len() && (#[trigger] rt[k]).mod_id == t[i].mod_id
                        && rt[k].versions == t[i].versions;
                assert(t[i] == s[i]);
            }
            assert forall|i: int| 0 <= i < r.len() implies versions_unique(#[trigger] r[i].versions@) by {
                let j = choose|j: int|
                    0 <= j < s.len() && r[i].mod_id == s[j].mod_id && r[i].versions == s[j].versions;
            }
            assert forall|i: int, j: int|
                0 <= i < r.len() && 0 <= j < r.len() && i != j implies r[i].mod_id@ != r[j].mod_id@ by {
                if i < rt.len() && j < rt.len() {
                    assert(r[i] == rt[i] && r[j] == rt[j]);
                } else if i < rt.len() {
                    assert(r[i] == rt[i]);
                } else {
                    assert(r[j] == rt[j]);
                }
            }
        }
    }
}

/// The newest version number among `vs`.
pub fn newest_version(vs: &Vec<GameModVersion>) -> (r: Version)
    requires
        vs@.len() > 0,
    ensures
        r == max_version(version_keys(vs@)),
{
    let mut best = vs[0].version;
    let mut i: usize = 1;
    assert(version_keys(vs@.subrange(0, 1)) =~= seq![vs@[0].version]);
    while i < vs.len()
        invariant
            1 <= i <= vs@.len(),
            best == max_version(version_keys(vs@.subrange(0, i as int))),
        decreases vs@.len() - i,
    {
        assert(version_keys(vs@.subrange(0, i + 1)).drop_last() =~= version_keys(
            vs@.subrange(0, i as int),
        ));
        assert(version_keys(vs@.subrange(0, i + 1)).last() == vs@[i as int].version);
        if version_le_exec(best, vs[i].version) {
            best = vs[i].version;
        }
        i = i + 1;
    }
    assert(vs@.subrange(0, i as int) =~= vs@);
    best
}

/// Drops the mods that have no version, and resolves each pending newest-version
/// selection to the newest available version.
pub fn auto_pick_versions(data: &mut AppData)
    ensures
        final(data).game_mods@ == auto_picked(old(data).game_mods@),
        old(data).wf() ==> final(data).wf(),
{
    let mut rest: Vec<GameMod> = Vec::new();
    std::mem::swap(&mut rest, &mut data.game_mods);
    let ghost orig = rest@;
    let n: usize = rest.len();
    let mut kept: Vec<GameMod> = Vec::new();
    let mut j: usize = 0;
    while rest.len() > 0
        invariant
            j + rest@.len() == n,
            orig.len() == n,
            rest@ == orig.subrange(j as int, n as int),
            kept@ == auto_picked(orig.subrange(0, j as int)),
        decreases rest@.len(),
    {
        let mut m = rest.remove(0);
        proof {
            assert(m == orig[j as int]);
            assert(orig.subrange(0, j + 1).drop_last() =~= orig.subrange(0, j as int));
            assert(rest@ =~= orig.subrange(j + 1, n as int));
        }
        if m.versions.len() > 0 {
            if m.selected_version == SelectedVersion::LatestIndirect(None) {
                m.selected_version = SelectedVersion::LatestIndirect(Some(newest_version(&m.versions)));
            }
            kept.push(m);
        }
        j = j + 1;
    }
    assert(orig.subrange(0, j as int) =~= orig);
    proof {
        if mods_wf(orig) {
            lemma_auto_picked_wf(orig);
        }
    }
    data.game_mods = kept;
}

/// The version that a selection stands for; a pending newest-version selection must have
/// been resolved first.
pub open spec fn spec_use_version(selected: SelectedVersion) -> Version {
    match selected {
        SelectedVersion::Latest(v) => v,
        SelectedVersion::Specific(v) => v,
        SelectedVersion::LatestIndirect(Some(v)) => v,
        SelectedVersion::LatestIndirect(None) => Version { major: 0, minor: 0, patch: 0 },
    }
}

pub fn use_version(selected: SelectedVersion) -> (r: Version)
    requires
        selected != SelectedVersion::LatestIndirect(None),
    ensures
        r == spec_use_version(selected),
{
    match selected {
        SelectedVersion::Latest(v) => v,
        SelectedVersion::Specific(v) => v,
        SelectedVersion::LatestIndirect(Some(v)) => v,
        SelectedVersion::LatestIndirect(None) => {
            proof {
                assert(false);
            }
            Version { major: 0, minor: 0, patch: 0 }
        },
    }
}

/// `k` is the first position of `vs` that holds version `v`.
pub open spec fn is_first_index(vs: Seq<GameModVersion>, v: Version, k: int) -> bool {
    0 <= k < vs.len() && vs[k].version == v && forall|j: int| 0 <= j < k ==> vs[j].version != v
}

/// A mod can take its details from its selection: the selection is resolved, and names a
/// version that is available and has metadata.
pub open spec fn has_selected_metadata(m: GameMod) -> bool {
    &&& m.selected_version != SelectedVersion::LatestIndirect(None)
    &&& exists|k: int| is_first_index(m.versions@, spec_use_version(m.selected_version), k)
    &&& m.versions@[choose|k: int|
        is_first_index(m.versions@, spec_use_version(m.selected_version), k)].metadata is Some
}

/// The metadata of the version that `m` selects.
pub open spec fn selected_metadata(m: GameMod) -> Metadata {
    m.versions@[choose|k: int|
        is_first_index(m.versions@, spec_use_version(m.selected_version), k)].metadata->Some_0
}

/// The details that metadata gives; a missing install mode means server and client.
pub open spec fn info_of(md: Metadata) -> ModInfo {
    ModInfo {
        name: md.name,
        author: md.author,
        description: md.description,
        game_build: md.game_build,
        sync: match md.sync {
            Some(s) => s,
            None => SyncMode::ServerAndClient,
        },
        homepage: md.homepage,
        download: md.download,
    }
}

fn clone_text(o: &Option<String>) -> (r: Option<String>)
    ensures
        r == *o,
{
    match o {
        Some(s) => Some(s.clone()),
        None => None,
    }
}

/// The details that `md` gives.
pub fn mod_info_from(md: &Metadata) -> (r: ModInfo)
    ensures
        r == info_of(*md),
{
    ModInfo {
        name: md.name.clone(),
        author: clone_text(&md.author),
        description: clone_text(&md.description),
        game_build: clone_text(&md.game_build),
        sync: match md.sync {
            Some(s) => s,
            None => SyncMode::ServerAndClient,
        },
        homepage: clone_text(&md.homepage),
        download: clone_text(&md.download),
    }
}

/// The position of the first available version numbered `v`.
pub fn find_version(vs: &Vec<GameModVersion>, v: Version) -> (r: Option<usize>)
    ensures
        r matches Some(k) ==> is_first_index(vs@, v, k as int),
        r is None ==> forall|j: int| 0 <= j < vs@.len() ==> vs@[j].version != v,
{
    let mut i: usize = 0;
    while i < vs.len()
        invariant
            i <= vs@.len(),
            forall|j: int| 0 <= j < i ==> vs@[j].version != v,
        decreases vs@.len() - i,
    {
        if vs[i].version == v {
            return Some(i);
        }
        i = i + 1;
    }
    None
}

/// Sets each mod's details from the metadata of the version it selects. Every selection
/// must be resolved and name an available version that has metadata.
pub fn set_mod_data_from_version(data: &mut AppData)
    requires
        old(data).wf(),
        forall|i: int|
            0 <= i < old(data).game_mods@.len() ==> has_selected_metadata(
                #[trigger] old(data).game_mods@[i],
            ),
    ensures
        final(data).wf(),
        final(data).game_mods@.len() == old(data).game_mods@.len(),
        forall|i: int|
            0 <= i < old(data).game_mods@.len() ==> #[trigger] final(data).game_mods@[i] == (GameMod {
                info: info_of(selected_metadata(old(data).game_mods@[i])),
                ..old(data).game_mods@[i]
            }),
{
    let mut rest: Vec<GameMod> = Vec::new();
    std::mem::swap(&mut rest, &mut data.game_mods);
    let ghost orig = rest@;
    let n: usize = rest.len();
    let mut done: Vec<GameMod> = Vec::new();
    while rest.len() > 0
        invariant
            done@.len() + rest@.len() == n,
            orig.len() == n,
            rest@ == orig.subrange(done@.len() as int, n as int),
            forall|i: int| 0 <= i < n ==> has_selected_metadata(#[trigger] orig[i]),
            forall|i: int|
                0 <= i < done@.len() ==> #[trigger] done@[i] == (GameMod {
                    info: info_of(selected_metadata(orig[i])),
                    ..orig[i]
                }),
        decreases rest@.len(),
    {
        let ghost j = done@.len() as int;
        let mut m = rest.remove(0);
        proof {
            assert(m == orig[j]);
            assert(rest@ =~= orig.subrange(j + 1, n as int));
            assert(has_selected_metadata(orig[j]));
        }
        let v = use_version(m.selected_version);
        let k = match find_version(&m.versions, v) {
            Some(k) => k,
            None => {
                proof {
                    let w = choose|w: int| is_first_index(m.versions@, v, w);
                    assert(m.versions@[w].version == v);
                }
                0
            },
        };
        proof {
            let c = choose|c: int| is_first_index(m.versions@, v, c);
            assert(is_first_index(m.versions@, v, c));
            assert(c == k as int);
        }
        let info = match &m.versions[k].metadata {
            Some(md) => mod_info_from(md),
            None => m.info.clone(),
        };
        m.info = info;
        done.push(m);
    }
    proof {
        assert forall|i: int| 0 <= i < n implies versions_unique(#[trigger] done@[i].versions@) by {
            assert(done@[i].versions@ == orig[i].versions@);
        }
        assert forall|i: int, j: int| 0 <= i < n && 0 <= j < n && i != j implies done@[i].mod_id@
            != done@[j].mod_id@ by {
            assert(done@[i].mod_id == orig[i].mod_id);
            assert(done@[j].mod_id == orig[j].mod_id);
        }
    }
    data.game_mods = done;
}

/// Sets the size of each mod, in order, to the size given for it: the size in bytes of
/// its selected version's file, which the caller reads from the file system.
pub fn set_mod_sizes(data: &mut AppData, sizes: &Vec<u64>)
    requires
        old(data).wf(),
        sizes@.len() == old(data).game_mods@.len(),
    ensures
        final(data).wf(),
        final(data).game_mods@.len() == old(data).game_mods@.len(),
        forall|i: int|
            0 <= i < old(data).game_mods@.len() ==> #[trigger] final(data).game_mods@[i] == (GameMod {
                size: sizes@[i],
                ..old(data).game_mods@[i]
            }),
{
    let mut rest: Vec<GameMod> = Vec::new();
    std::mem::swap(&mut rest, &mut data.game_mods);
    let ghost orig = rest@;
    let n: usize = rest.len();
    let mut done: Vec<GameMod> = Vec::new();
    while rest.len() > 0
        invariant
            done@.len() + rest@.len() == n,
            orig.len() == n,
            sizes@.len() == n,
            rest@ == orig.subrange(done@.len() as int, n as int),
            forall|i: int|
                0 <= i < done@.len() ==> #[trigger] done@[i] == (GameMod {
                    size: sizes@[i],
                    ..orig[i]
                }),
        decreases rest@.len(),
    {
        let ghost j = done@.len() as int;
        let mut m = rest.remove(0);
        proof {
            assert(m == orig[j]);
            assert(rest@ =~= orig.subrange(j + 1, n as int));
        }
        m.size = sizes[done.len()];
        done.push(m);
    }
    proof {
        assert forall|i: int| 0 <= i < n implies versions_unique(#[trigger] done@[i].versions@) by {
            assert(done@[i].versions@ == orig[i].versions@);
        }
        assert forall|i: int, j: int| 0 <= i < n && 0 <= j < n && i != j implies done@[i].mod_id@
            != done@[j].mod_id@ by {
            assert(done@[i].mod_id == orig[i].mod_id);
            assert(done@[j].mod_id == orig[j].mod_id);
        }
    }
    data.game_mods = done;
}

} // verus!
