//! Source walker: given one resolved source entry and a directory tree,
//! enumerate the eligible files in traversal order. Excluded directories are
//! pruned with their whole subtree, the depth bound and glob filter are
//! applied, and each file carries its effective decode policy (the exact
//! per-file override for its relative path, else the source default).

use vstd::prelude::*;
use crate::config::{
    glob_match, ResolvedSourceFileConfig, ResolvedSourceFormat, ResolvedSourceGlob,
};

verus! {

/// A directory tree held in memory: what a walk of one source root sees.
/// Names are single path components.
pub enum DirTree {
    File,
    Dir(Vec<(String, DirTree)>),
}

/// Model of a directory tree.
pub enum DirTreeV {
    File,
    Dir(Seq<(Seq<char>, DirTreeV)>),
}

impl DirTree {
    /// The mathematical tree this value represents.
    pub open spec fn deep(self) -> DirTreeV
        decreases self,
    {
        match self {
            DirTree::File => DirTreeV::File,
            DirTree::Dir(es) => DirTreeV::Dir(deep_entries(es@)),
        }
    }
}

/// Model of a directory's entry list, name by name.
pub open spec fn deep_entries(es: Seq<(String, DirTree)>) -> Seq<(Seq<char>, DirTreeV)>
    decreases es,
{
    if es.len() == 0 {
        Seq::empty()
    } else {
        deep_entries(es.drop_last()).push((es.last().0@, es.last().1.deep()))
    }
}

pub proof fn lemma_deep_entries(es: Seq<(String, DirTree)>)
    ensures
        deep_entries(es).len() == es.len(),
        forall|i: int|
            0 <= i < es.len() ==> deep_entries(es)[i] == (es[i].0@, es[i].1.deep()),
    decreases es.len(),
{
    if es.len() > 0 {
        lemma_deep_entries(es.drop_last());
    }
}

/// One discovered file: where it lies, its root-relative path, and the
/// policy that decodes it.
pub struct DiscoveredFile {
    pub absolute_path: String,
    pub relative_path: String,
    pub format: ResolvedSourceFormat,
}

/// Whether a relative path is a member of the exclusion set.
pub open spec fn spec_excluded(excl: Seq<String>, rel: Seq<char>) -> bool {
    exists|i: int| 0 <= i < excl.len() && excl[i]@ == rel
}

fn is_excluded(excl: &Vec<String>, rel: &String) -> (r: bool)
    ensures
        r == spec_excluded(excl@, rel@),
{
    let n = excl.len();
    let mut k: usize = 0;
    while k < n
        invariant
            n == excl@.len(),
            k <= n,
            forall|i: int| 0 <= i < k ==> excl@[i]@ != rel@,
        decreases n - k,
    {
        if excl[k] == *rel {
            return true;
        }
        k = k + 1;
    }
    false
}

/// Whether the glob stage accepts a relative path: always when filtering is
/// disabled, else as the compiled pattern says.
pub open spec fn spec_glob_accepts(g: ResolvedSourceGlob, rel: Seq<char>) -> bool {
    match g {
        ResolvedSourceGlob::Disabled => true,
        ResolvedSourceGlob::Glob(c) => glob_match(c.spec_pattern(), rel),
    }
}

fn glob_accepts(g: &ResolvedSourceGlob, rel: &String) -> (r: bool)
    ensures
        r == spec_glob_accepts(*g, rel@),
{
    match g {
        ResolvedSourceGlob::Disabled => true,
        ResolvedSourceGlob::Glob(c) => c.is_match(rel.as_str()),
    }
}

/// The policy for a relative path, scanning the overrides from `i` on:
/// the first exact key match wins, else the source default applies.
pub open spec fn spec_format_from(
    files: Seq<(String, ResolvedSourceFormat)>,
    i: int,
    default: ResolvedSourceFormat,
    rel: Seq<char>,
) -> ResolvedSourceFormat
    decreases files.len() - i,
{
    if i < 0 || i >= files.len() {
        default
    } else if files[i].0@ == rel {
        files[i].1
    } else {
        spec_format_from(files, i + 1, default, rel)
    }
}

/// The effective policy for a relative path: the exact per-file override if
/// one exists, else the source default.
pub open spec fn spec_format_for(
    files: Seq<(String, ResolvedSourceFormat)>,
    default: ResolvedSourceFormat,
    rel: Seq<char>,
) -> ResolvedSourceFormat {
    spec_format_from(files, 0, default, rel)
}

/// A per-file override takes precedence over the source default: where a
/// relative path has an override (at its first occurrence), the effective
/// policy is that override, never the default.
pub proof fn lemma_override_takes_precedence(
    files: Seq<(String, ResolvedSourceFormat)>,
    default: ResolvedSourceFormat,
    rel: Seq<char>,
    i: int,
)
    requires
        0 <= i < files.len(),
        files[i].0@ == rel,
        forall|j: int| 0 <= j < i ==> (#[trigger] files[j].0)@ != rel,
    ensures
        spec_format_for(files, default, rel) == files[i].1,
{
    lemma_format_from_skips(files, default, rel, 0, i);
}

proof fn lemma_format_from_skips(
    files: Seq<(String, ResolvedSourceFormat)>,
    default: ResolvedSourceFormat,
    rel: Seq<char>,
    k: int,
    i: int,
)
    requires
        0 <= k <= i < files.len(),
        files[i].0@ == rel,
        forall|j: int| 0 <= j < i ==> (#[trigger] files[j].0)@ != rel,
    ensures
        spec_format_from(files, k, default, rel) == files[i].1,
    decreases i - k,
{
    if k < i {
        lemma_format_from_skips(files, default, rel, k + 1, i);
    }
}

fn format_from(
    files: &Vec<(String, ResolvedSourceFormat)>,
    i: usize,
    default: &ResolvedSourceFormat,
    rel: &String,
) -> (r: ResolvedSourceFormat)
    requires
        i <= files@.len(),
    ensures
        r == spec_format_from(files@, i as int, *default, rel@),
    decreases files@.len() - i,
{
    if i >= files.len() {
        default.duplicate()
    } else if files[i].0 == *rel {
        files[i].1.duplicate()
    } else {
        format_from(files, i + 1, default, rel)
    }
}

/// The relative path of an entry called `name` under `rel`.
pub open spec fn spec_child_rel(rel: Seq<char>, name: Seq<char>) -> Seq<char> {
    if rel.len() == 0 {
        name
    } else {
        rel + seq!['/'] + name
    }
}

/// The absolute path of a discovered file: the root itself for an empty
/// relative path, else the relative path under the root.
pub open spec fn spec_abs_path(root: Seq<char>, rel: Seq<char>) -> Seq<char> {
    if rel.len() == 0 {
        root
    } else {
        root + seq!['/'] + rel
    }
}

/// What the walk yields for one tree standing at `rel` with depth `depth`:
/// nothing if `rel` is excluded (a directory excluded this way is pruned
/// with its whole subtree); a file if the depth bound and the glob accept
/// it, paired with its effective policy; a directory's entries in order,
/// one level deeper, while the depth bound allows descending.
pub open spec fn spec_walk(
    c: ResolvedSourceFileConfig,
    t: DirTreeV,
    rel: Seq<char>,
    depth: int,
) -> Seq<(Seq<char>, ResolvedSourceFormat)>
    decreases t,
{
    if spec_excluded(c.exclude@, rel) {
        Seq::empty()
    } else {
        match t {
            DirTreeV::File => {
                if depth <= c.max_depth && spec_glob_accepts(c.glob, rel) {
                    seq![(rel, spec_format_for(c.files@, c.format, rel))]
                } else {
                    Seq::empty()
                }
            },
            DirTreeV::Dir(es) => {
                if depth < c.max_depth {
                    spec_walk_entries(c, es, rel, depth + 1)
                } else {
                    Seq::empty()
                }
            },
        }
    }
}

/// What the walk yields for a directory's entries in order, each child
/// standing at its name under `rel`, at depth `depth`.
pub open spec fn spec_walk_entries(
    c: ResolvedSourceFileConfig,
    es: Seq<(Seq<char>, DirTreeV)>,
    rel: Seq<char>,
    depth: int,
) -> Seq<(Seq<char>, ResolvedSourceFormat)>
    decreases es,
{
    if es.len() == 0 {
        Seq::empty()
    } else {
        spec_walk_entries(c, es.drop_last(), rel, depth) + spec_walk(
            c,
            es.last().1,
            spec_child_rel(rel, es.last().0),
            depth,
        )
    }
}

/// How a run of discovered files realizes a walk's yield under a root.
pub open spec fn spec_files_match(
    root: Seq<char>,
    items: Seq<(Seq<char>, ResolvedSourceFormat)>,
    dfs: Seq<DiscoveredFile>,
) -> bool {
    &&& dfs.len() == items.len()
    &&& (forall|i: int|
        0 <= i < items.len() ==> (#[trigger] dfs[i]).relative_path@ == items[i].0
            && dfs[i].format == items[i].1 && dfs[i].absolute_path@ == spec_abs_path(
            root,
            items[i].0,
        ))
}

#[verifier::loop_isolation(false)]
fn walk_into(
    c: &ResolvedSourceFileConfig,
    t: &DirTree,
    rel: &String,
    depth: usize,
    out: &mut Vec<DiscoveredFile>,
)
    ensures
        final (out)@.len() == old(out)@.len() + spec_walk(*c, t.deep(), rel@, depth as int).len(),
        final (out)@.subrange(0, old(out)@.len() as int) == old(out)@,
        spec_files_match(
            c.root@,
            spec_walk(*c, t.deep(), rel@, depth as int),
            final (out)@.subrange(old(out)@.len() as int, final (out)@.len() as int),
        ),
    decreases t,
{
    let ghost base = out@;
    if is_excluded(&c.exclude, rel) {
        proof {
            assert(out@.subrange(0, base.len() as int) =~= base);
            assert(out@.subrange(base.len() as int, out@.len() as int)
                =~= Seq::<DiscoveredFile>::empty());
        }
        return ;
    }
    match t {
        DirTree::File => {
            if depth <= c.max_depth && glob_accepts(&c.glob, rel) {
                let mut abs = c.root.clone();
                if rel.as_str().unicode_len() > 0 {
                    crate::json::push_char(&mut abs, '/');
                    abs.append(rel.as_str());
                }
                proof {
                    assert(abs@ == spec_abs_path(c.root@, rel@));
                }
                let fmt = format_from(&c.files, 0, &c.format, rel);
                out.push(
                    DiscoveredFile {
                        absolute_path: abs,
                        relative_path: rel.clone(),
                        format: fmt,
                    },
                );
                proof {
                    assert(out@.subrange(0, base.len() as int) =~= base);
                    assert(out@.subrange(base.len() as int, out@.len() as int) =~= seq![
                        out@.last(),
                    ]);
                }
            } else {
                proof {
                    assert(out@.subrange(0, base.len() as int) =~= base);
                    assert(out@.subrange(base.len() as int, out@.len() as int)
                        =~= Seq::<DiscoveredFile>::empty());
                }
            }
        },
        DirTree::Dir(es) => {
            if depth < c.max_depth {
                let ghost des = deep_entries(es@);
                proof {
                    lemma_deep_entries(es@);
                }
                let n = es.len();
                let mut k: usize = 0;
                proof {
                    assert(des.take(0) =~= Seq::<(Seq<char>, DirTreeV)>::empty());
                    assert(out@.subrange(0, base.len() as int) =~= base);
                    assert(out@.subrange(base.len() as int, out@.len() as int)
                        =~= Seq::<DiscoveredFile>::empty());
                }
                while k < n
                    invariant
                        k <= n,
                        out@.len() == base.len() + spec_walk_entries(
                            *c,
                            des.take(k as int),
                            rel@,
                            depth as int + 1,
                        ).len(),
                        out@.subrange(0, base.len() as int) == base,
                        spec_files_match(
                            c.root@,
                            spec_walk_entries(*c, des.take(k as int), rel@, depth as int + 1),
                            out@.subrange(base.len() as int, out@.len() as int),
                        ),
                    decreases n - k,
                {
                    let name = &es[k].0;
                    let crel: String = if rel.as_str().unicode_len() == 0 {
                        name.clone()
                    } else {
                        let mut s = rel.clone();
                        crate::json::push_char(&mut s, '/');
                        s.append(name.as_str());
                        s
                    };
                    proof {
                        assert(crel@ == spec_child_rel(rel@, des[k as int].0));
                        assert(decreases_to!(*t => t->Dir_0));
                        assert(decreases_to!(*es => es@[k as int]));
                        assert(decreases_to!(es@[k as int] => es@[k as int].1));
                        assert(decreases_to!(*t => es@[k as int].1));
                    }
                    let ghost mid = out@;
                    walk_into(c, &es[k].1, &crel, depth + 1, out);
                    proof {
                        let prefix = spec_walk_entries(
                            *c,
                            des.take(k as int),
                            rel@,
                            depth as int + 1,
                        );
                        let step = spec_walk(
                            *c,
                            des[k as int].1,
                            spec_child_rel(rel@, des[k as int].0),
                            depth as int + 1,
                        );
                        assert(des.take(k as int + 1).drop_last() =~= des.take(k as int));
                        assert(des.take(k as int + 1).last() == des[k as int]);
                        assert(spec_walk_entries(*c, des.take(k as int + 1), rel@, depth as int + 1)
                            == prefix + step);
                        assert(out@.subrange(0, base.len() as int) =~= base);
                        assert forall|i: int|
                            0 <= i < prefix.len() + step.len() implies {
                            &&& (#[trigger] out@.subrange(base.len() as int, out@.len() as int)[i]).relative_path@
                                == (prefix + step)[i].0
                            &&& out@.subrange(base.len() as int, out@.len() as int)[i].format
                                == (prefix + step)[i].1
                            &&& out@.subrange(base.len() as int, out@.len() as int)[i].absolute_path@
                                == spec_abs_path(c.root@, (prefix + step)[i].0)
                        } by {
                            if i < prefix.len() {
                                assert(out@.subrange(base.len() as int, out@.len() as int)[i]
                                    == mid.subrange(base.len() as int, mid.len() as int)[i]);
                            } else {
                                assert(out@.subrange(base.len() as int, out@.len() as int)[i]
                                    == out@.subrange(mid.len() as int, out@.len() as int)[i
                                    - prefix.len()]);
                            }
                        }
                    }
                    k = k + 1;
                }
                proof {
                    assert(des.take(n as int) =~= des);
                }
            } else {
                proof {
                    assert(out@.subrange(0, base.len() as int) =~= base);
                    assert(out@.subrange(base.len() as int, out@.len() as int)
                        =~= Seq::<DiscoveredFile>::empty());
                }
            }
        },
    }
}

impl ResolvedSourceFileConfig {
    /// Walk one source root, modeled by `tree`, and list every eligible
    /// file in traversal order with its effective decode policy.
    pub fn source_files(&self, tree: &DirTree) -> (r: Vec<DiscoveredFile>)
        ensures
            spec_files_match(
                self.root@,
                spec_walk(*self, tree.deep(), Seq::empty(), 0),
                r@,
            ),
    {
        let mut out: Vec<DiscoveredFile> = Vec::new();
        let rel = String::new();
        walk_into(self, tree, &rel, 0, &mut out);
        proof {
            assert(out@.subrange(0, out@.len() as int) =~= out@);
        }
        out
    }
}

/// Whether the walk prunes the entry at this relative path: pruning cuts a
/// directory's whole subtree off before it is entered.
pub fn is_pruned(c: &ResolvedSourceFileConfig, rel: &String) -> (r: bool)
    ensures
        r == spec_excluded(c.exclude@, rel@),
{
    is_excluded(&c.exclude, rel)
}

/// The decision for one file entry at `rel`, once the walk has reached it:
/// its effective policy where the glob stage accepts the path, nothing
/// where it does not. Exclusion and the depth bound are the walk's own
/// concerns and are not retested here.
pub fn classify_file(c: &ResolvedSourceFileConfig, rel: &String) -> (r: Option<
    ResolvedSourceFormat,
>)
    ensures
        r is Some <==> spec_glob_accepts(c.glob, rel@),
        r matches Some(f) ==> f == spec_format_for(c.files@, c.format, rel@),
{
    if glob_accepts(&c.glob, rel) {
        Some(format_from(&c.files, 0, &c.format, rel))
    } else {
        None
    }
}

/// The discovered files of one source root, walked eagerly.
pub struct SourceFiles {
    pub files: Vec<DiscoveredFile>,
}

impl SourceFiles {
    /// Walk one source root, modeled by `tree`, into a listing.
    pub fn new(config: &ResolvedSourceFileConfig, tree: &DirTree) -> (r: SourceFiles)
        ensures
            spec_files_match(
                config.root@,
                spec_walk(*config, tree.deep(), Seq::empty(), 0),
                r.files@,
            ),
    {
        SourceFiles { files: config.source_files(tree) }
    }
}

/// The listing entry a discovered file serializes back to.
pub open spec fn spec_discovered_json(d: DiscoveredFile) -> crate::json::JsonV {
    crate::json::JsonV::Obj(
        seq![
            ("absolute_path"@, crate::json::JsonV::Str(d.absolute_path@)),
            ("relative_path"@, crate::json::JsonV::Str(d.relative_path@)),
            ("format"@, crate::config::spec_resolved_format_json(d.format)),
        ],
    )
}

impl DiscoveredFile {
    /// The diagnostic form of this listing entry.
    pub fn to_json(&self) -> (r: crate::json::JsonValue)
        ensures
            r.deep() == spec_discovered_json(*self),
    {
        let mut fields: Vec<(String, crate::json::JsonValue)> = Vec::new();
        fields.push(
            (
                String::from_str("absolute_path"),
                crate::json::JsonValue::Str(self.absolute_path.clone()),
            ),
        );
        fields.push(
            (
                String::from_str("relative_path"),
                crate::json::JsonValue::Str(self.relative_path.clone()),
            ),
        );
        fields.push((String::from_str("format"), self.format.to_json()));
        let r = crate::json::JsonValue::Obj(fields);
        proof {
            crate::json::lemma_deep_fields(fields@);
            assert(crate::json::deep_fields(fields@) =~= spec_discovered_json(*self)->Obj_0);
        }
        r
    }
}

/// Whether `anc` stands above-or-at `p` in the tree of relative paths: the
/// walk's own root (the empty path), the path itself, or a directory above
/// it, with a separator at the boundary.
pub open spec fn spec_under(anc: Seq<char>, p: Seq<char>) -> bool {
    anc.len() == 0 || anc == p || (anc.len() < p.len() && p.subrange(0, anc.len() as int) == anc
        && p[anc.len() as int] == '/')
}

/// A well-formed entry name: one nonempty path component.
pub open spec fn spec_name_wf(n: Seq<char>) -> bool {
    n.len() > 0 && forall|i: int| 0 <= i < n.len() ==> n[i] != '/'
}

/// A well-formed tree: every entry name a single component, throughout.
pub open spec fn spec_tree_wf(t: DirTreeV) -> bool
    decreases t,
{
    match t {
        DirTreeV::File => true,
        DirTreeV::Dir(es) => spec_entries_wf(es),
    }
}

/// Well-formedness of a directory's entries.
pub open spec fn spec_entries_wf(es: Seq<(Seq<char>, DirTreeV)>) -> bool
    decreases es,
{
    if es.len() == 0 {
        true
    } else {
        spec_entries_wf(es.drop_last()) && spec_name_wf(es.last().0) && spec_tree_wf(
            es.last().1,
        )
    }
}

proof fn lemma_under_trans(a: Seq<char>, b: Seq<char>, p: Seq<char>)
    requires
        spec_under(a, b),
        spec_under(b, p),
    ensures
        spec_under(a, p),
{
    if a.len() == 0 {
    } else if a == b {
    } else {
        assert(a.len() < b.len());
        if b == p {
        } else {
            assert(b.len() < p.len() && p.subrange(0, b.len() as int) == b && p[b.len() as int]
                == '/');
            assert forall|i: int| 0 <= i < a.len() implies p.subrange(0, a.len() as int)[i]
                == a[i] by {
                assert(p.subrange(0, a.len() as int)[i] == p[i]);
                assert(p.subrange(0, b.len() as int)[i] == p[i]);
                assert(b.subrange(0, a.len() as int)[i] == b[i]);
            }
            assert(p.subrange(0, a.len() as int) =~= a);
            assert(p.subrange(0, b.len() as int)[a.len() as int] == p[a.len() as int]);
            assert(b[a.len() as int] == '/');
            assert(p[a.len() as int] == b[a.len() as int]);
        }
    }
}

proof fn lemma_under_child(rel: Seq<char>, name: Seq<char>)
    ensures
        spec_under(rel, spec_child_rel(rel, name)),
{
    if rel.len() > 0 {
        let crel = spec_child_rel(rel, name);
        assert(crel.len() == rel.len() + 1 + name.len());
        assert forall|i: int| 0 <= i < rel.len() implies crel.subrange(0, rel.len() as int)[i]
            == rel[i] by {
            assert(crel.subrange(0, rel.len() as int)[i] == crel[i]);
            assert(crel[i] == (rel + seq!['/'])[i]);
        }
        assert(crel.subrange(0, rel.len() as int) =~= rel);
        assert(crel[rel.len() as int] == (rel + seq!['/'])[rel.len() as int]);
    }
}

proof fn lemma_under_comparable(a: Seq<char>, b: Seq<char>, p: Seq<char>)
    requires
        spec_under(a, p),
        spec_under(b, p),
        a.len() <= b.len(),
    ensures
        spec_under(a, b),
{
    if a.len() == 0 {
    } else if a == p {
        assert(b.len() >= p.len());
        assert(b.len() == 0 || b == p || b.len() < p.len());
        assert(b == p);
    } else {
        assert(a.len() < p.len() && p.subrange(0, a.len() as int) == a && p[a.len() as int]
            == '/');
        if b == p {
        } else if b.len() == 0 {
            assert(a.len() == 0);
        } else {
            assert(b.len() < p.len() && p.subrange(0, b.len() as int) == b && p[b.len() as int]
                == '/');
            if a.len() == b.len() {
                assert forall|i: int| 0 <= i < a.len() implies a[i] == b[i] by {
                    assert(p.subrange(0, a.len() as int)[i] == p[i]);
                    assert(p.subrange(0, b.len() as int)[i] == p[i]);
                }
                assert(a =~= b);
            } else {
                assert forall|i: int| 0 <= i < a.len() implies b.subrange(
                    0,
                    a.len() as int,
                )[i] == a[i] by {
                    assert(b.subrange(0, a.len() as int)[i] == b[i]);
                    assert(p.subrange(0, b.len() as int)[i] == p[i]);
                    assert(p.subrange(0, a.len() as int)[i] == p[i]);
                }
                assert(b.subrange(0, a.len() as int) =~= a);
                assert(p.subrange(0, b.len() as int)[a.len() as int] == p[a.len() as int]);
                assert(b[a.len() as int] == '/');
            }
        }
    }
}

proof fn lemma_under_child_between(rel: Seq<char>, name: Seq<char>, e: Seq<char>)
    requires
        spec_name_wf(name),
        e.len() > rel.len(),
        e != spec_child_rel(rel, name),
    ensures
        !spec_under(e, spec_child_rel(rel, name)),
{
    let crel = spec_child_rel(rel, name);
    if !spec_under(e, crel) {
        return ;
    }
    assert(e.len() > 0);
    assert(e.len() < crel.len() && crel.subrange(0, e.len() as int) == e && crel[e.len() as int]
        == '/');
    if rel.len() == 0 {
        assert(crel == name);
        assert(name[e.len() as int] != '/');
    } else {
        assert(crel.len() == rel.len() + 1 + name.len());
        if e.len() == rel.len() + 1 {
            // The boundary would sit at the first character of the name.
            assert(crel[e.len() as int] == name[0]);
            assert(name[0] != '/');
        } else {
            assert(e.len() > rel.len() + 1);
            assert(crel[e.len() as int] == name[e.len() - rel.len() - 1]);
            assert(name[e.len() - rel.len() - 1] != '/');
        }
    }
}

proof fn lemma_walk_under(
    c: ResolvedSourceFileConfig,
    t: DirTreeV,
    rel: Seq<char>,
    depth: int,
    j: int,
)
    requires
        0 <= j < spec_walk(c, t, rel, depth).len(),
    ensures
        spec_under(rel, spec_walk(c, t, rel, depth)[j].0),
    decreases t, 0int,
{
    if !spec_excluded(c.exclude@, rel) {
        match t {
            DirTreeV::File => {
            },
            DirTreeV::Dir(es) => {
                if depth < c.max_depth {
                    lemma_walk_entries_under(c, es, rel, depth + 1, j);
                }
            },
        }
    }
}

proof fn lemma_walk_entries_under(
    c: ResolvedSourceFileConfig,
    es: Seq<(Seq<char>, DirTreeV)>,
    rel: Seq<char>,
    depth: int,
    j: int,
)
    requires
        0 <= j < spec_walk_entries(c, es, rel, depth).len(),
    ensures
        spec_under(rel, spec_walk_entries(c, es, rel, depth)[j].0),
    decreases es, 1int,
{
    if es.len() > 0 {
        let prefix = spec_walk_entries(c, es.drop_last(), rel, depth);
        let crel = spec_child_rel(rel, es.last().0);
        let step = spec_walk(c, es.last().1, crel, depth);
        if j < prefix.len() {
            lemma_walk_entries_under(c, es.drop_last(), rel, depth, j);
            assert((prefix + step)[j] == prefix[j]);
        } else {
            lemma_walk_under(c, es.last().1, crel, depth, j - prefix.len());
            lemma_under_child(rel, es.last().0);
            lemma_under_trans(rel, crel, step[j - prefix.len()].0);
            assert((prefix + step)[j] == step[j - prefix.len()]);
        }
    }
}

proof fn lemma_walk_prunes_at(
    c: ResolvedSourceFileConfig,
    t: DirTreeV,
    rel: Seq<char>,
    depth: int,
    j: int,
    x: int,
)
    requires
        spec_tree_wf(t),
        0 <= j < spec_walk(c, t, rel, depth).len(),
        0 <= x < c.exclude@.len(),
        spec_under(rel, c.exclude@[x]@),
    ensures
        !spec_under(c.exclude@[x]@, spec_walk(c, t, rel, depth)[j].0),
    decreases t, 0int,
{
    let e = c.exclude@[x]@;
    if !spec_under(e, spec_walk(c, t, rel, depth)[j].0) {
        return ;
    }
    assert(!spec_excluded(c.exclude@, rel));
    match t {
        DirTreeV::File => {
            let r = spec_walk(c, t, rel, depth)[j].0;
            assert(r == rel);
            // Both stand on the chain between `rel` and itself, so `e` is `rel`.
            if e.len() == 0 {
                assert(rel.len() == 0 || rel == e);
                assert(e == rel);
            } else if e == rel {
            } else {
                assert(rel.len() == 0 || rel.len() < e.len());
                assert(e.len() < rel.len() || e == rel || e.len() == 0 || rel.len() == 0);
                if rel.len() == 0 {
                    assert(e.len() < rel.len() || e == rel || e.len() == 0);
                    assert(e.len() == 0);
                }
            }
            assert(e == rel);
            assert(spec_excluded(c.exclude@, rel));
        },
        DirTreeV::Dir(es) => {
            if depth < c.max_depth {
                lemma_walk_entries_prunes(c, es, rel, depth + 1, j, x);
            }
        },
    }
}

proof fn lemma_walk_entries_prunes(
    c: ResolvedSourceFileConfig,
    es: Seq<(Seq<char>, DirTreeV)>,
    rel: Seq<char>,
    depth: int,
    j: int,
    x: int,
)
    requires
        spec_entries_wf(es),
        0 <= j < spec_walk_entries(c, es, rel, depth).len(),
        0 <= x < c.exclude@.len(),
        !spec_excluded(c.exclude@, rel),
        spec_under(rel, c.exclude@[x]@),
    ensures
        !spec_under(c.exclude@[x]@, spec_walk_entries(c, es, rel, depth)[j].0),
    decreases es, 1int,
{
    let e = c.exclude@[x]@;
    if !spec_under(e, spec_walk_entries(c, es, rel, depth)[j].0) {
        return ;
    }
    if es.len() > 0 {
        let prefix = spec_walk_entries(c, es.drop_last(), rel, depth);
        let name = es.last().0;
        let crel = spec_child_rel(rel, name);
        let step = spec_walk(c, es.last().1, crel, depth);
        if j < prefix.len() {
            assert((prefix + step)[j] == prefix[j]);
            lemma_walk_entries_prunes(c, es.drop_last(), rel, depth, j, x);
        } else {
            let j2 = j - prefix.len();
            let r = step[j2].0;
            assert((prefix + step)[j] == step[j2]);
            lemma_walk_under(c, es.last().1, crel, depth, j2);
            assert(spec_under(crel, r));
            if crel.len() <= e.len() {
                lemma_under_comparable(crel, e, r);
                lemma_walk_prunes_at(c, es.last().1, crel, depth, j2, x);
            } else {
                lemma_under_comparable(e, crel, r);
                // `e` stands strictly above the child, yet below-or-at `rel`:
                // impossible, since the child adds one whole component.
                if e == crel {
                    assert(e.len() == crel.len());
                } else if e.len() == 0 {
                    assert(rel.len() == 0 || rel == e);
                    assert(rel.len() == 0);
                    assert(e == rel);
                    assert(spec_excluded(c.exclude@, rel));
                } else if e.len() <= rel.len() {
                    // `rel` stands under-or-at `e` and `e` under `rel`: equal.
                    if rel.len() == 0 {
                        assert(e.len() == 0);
                    } else if rel == e {
                        assert(spec_excluded(c.exclude@, rel));
                    } else {
                        assert(rel.len() < e.len());
                    }
                } else {
                    lemma_under_child_between(rel, name, e);
                }
            }
        }
    }
}

/// Exclusion of a directory prunes its entire subtree: the walk of a
/// well-formed tree never yields a file standing at, or anywhere under, an
/// excluded relative path.
pub proof fn lemma_exclude_prunes(
    c: ResolvedSourceFileConfig,
    t: DirTreeV,
    j: int,
    x: int,
)
    requires
        spec_tree_wf(t),
        0 <= j < spec_walk(c, t, Seq::empty(), 0).len(),
        0 <= x < c.exclude@.len(),
    ensures
        !spec_under(c.exclude@[x]@, spec_walk(c, t, Seq::empty(), 0)[j].0),
{
    lemma_walk_prunes_at(c, t, Seq::empty(), 0, j, x);
}

/// Whether `root` stands as a strict directory prefix of `path`.
pub open spec fn spec_has_root(root: Seq<char>, path: Seq<char>) -> bool {
    path.len() > root.len() && path.subrange(0, root.len() as int) == root && path[root.len() as int]
        == '/'
}

/// Report whether `root` stands as a strict directory prefix of `path`.
pub fn has_root(root: &str, path: &str) -> (r: bool)
    ensures
        r == spec_has_root(root@, path@),
{
    let rl = root.unicode_len();
    let pl = path.unicode_len();
    if pl <= rl {
        return false;
    }
    if path.get_char(rl) != '/' {
        return false;
    }
    let mut k: usize = 0;
    while k < rl
        invariant
            k <= rl,
            rl == root@.len(),
            pl == path@.len(),
            pl > rl,
            forall|i: int| 0 <= i < k ==> path@[i] == root@[i],
        decreases rl - k,
    {
        if path.get_char(k) != root.get_char(k) {
            proof {
                assert(path@.subrange(0, rl as int)[k as int] == path@[k as int]);
            }
            return false;
        }
        k = k + 1;
    }
    proof {
        assert(path@.subrange(0, rl as int) =~= root@);
    }
    true
}

/// Strip a source root from a path that lies strictly under it, keeping the
/// part after the separator.
pub fn strip_root(root: &str, path: &str) -> (r: String)
    requires
        spec_has_root(root@, path@),
    ensures
        r@ == path@.subrange(root@.len() as int + 1, path@.len() as int),
{
    let rl = root.unicode_len();
    let pl = path.unicode_len();
    path.substring_char(rl + 1, pl).to_owned()
}

} // verus!
