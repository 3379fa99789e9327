//! `grit -r <alias> <path>` / `grit register` / `grit remove`.
//!
//! Registering is checked in two steps around the filesystem: the alias is
//! vetted before the path is looked at, and the entry is filed once the path
//! has been resolved to a repository root. Removing is all or nothing: every
//! alias is checked before any is removed, so `grit rm good bad` does not
//! half-apply.
use vstd::prelude::*;

use crate::error::Error;
use crate::registry::location::{abbreviate, abbreviated, opt_str};
use crate::registry::model::{repo_views, RepoEntry, RepoEntryV, VcsKind};
use crate::registry::{
    alias_problem, first_unknown, insert_text, reserved, strictly_sorted, validate_alias, Registry,
};
use crate::render::theme::{dim, hue, strong, Color, Theme};
use crate::render::{paint, painted};
use crate::text::{join, joined, owned, push_str, views};
use crate::vcs::{detection_order, detection_order_of};

verus! {

/// `jiff::Timestamp::try_from` on `SystemTime::now()`, rounded to the
/// second and displayed in RFC 3339: when an alias was added, or `None` when
/// the system clock is outside the range a timestamp can hold. It is the
/// clock, so nothing is stated of it.
#[verifier::external_body]
fn now_rfc3339() -> (res: Option<String>) {
    jiff::Timestamp::try_from(std::time::SystemTime::now())
        .ok()
        .map(|now| now.round(jiff::Unit::Second).unwrap_or(now).to_string())
}

/// Every backend grit could have recognised, as an English list, in the
/// order they are tried: `dolt or git`.
pub open spec fn known_kinds_of() -> Seq<char> {
    joined(detection_order_of().map_values(|k: VcsKind| k.spec_as_str()), " or "@)
}

/// Every backend grit could have recognised, as an English list.
pub fn known_kinds() -> (res: String)
    ensures
        res@ == known_kinds_of(),
{
    let kinds = detection_order();
    let mut names: Vec<String> = Vec::new();
    let n = kinds.len();
    let mut i: usize = 0;
    while i < n
        invariant
            n == kinds@.len(),
            kinds@ == detection_order_of(),
            i <= n,
            views(names@) == kinds@.take(i as int).map_values(|k: VcsKind| k.spec_as_str()),
        decreases n - i,
    {
        let ghost before = views(names@);
        names.push(owned(kinds[i].as_str()));
        assert(views(names@) =~= before.push(kinds@[i as int].spec_as_str()));
        assert(kinds@.take(i + 1).map_values(|k: VcsKind| k.spec_as_str()) =~= kinds@.take(
            i as int,
        ).map_values(|k: VcsKind| k.spec_as_str()).push(kinds@[i as int].spec_as_str()));
        i += 1;
    }
    assert(kinds@.take(n as int) =~= kinds@);
    join(&names, " or ")
}

/// The error for a path that no backend recognised.
pub fn not_a_repo(path: &str) -> (res: Error)
    ensures
        match res {
            Error::NotARepo { path: p, kinds } => p@ == path@ && kinds@ == known_kinds_of(),
            _ => false,
        },
{
    Error::NotARepo { path: owned(path), kinds: known_kinds() }
}

/// Whether `alias` may be registered: it must be a valid, unreserved alias,
/// and not one already taken unless `force` replaces it. Checked before the
/// path is looked at.
pub fn check_registration(registry: &Registry, alias: &str, force: bool) -> (res: Result<(), Error>)
    ensures
        match res {
            Ok(()) => alias_problem(alias@) is None && !reserved(alias@) && (force
                || !registry@.contains_key(alias@)),
            Err(Error::InvalidAlias { alias: a, reason }) => a@ == alias@ && alias_problem(alias@)
                == Some(reason@),
            Err(Error::ReservedAlias(a)) => a@ == alias@ && alias_problem(alias@) is None
                && reserved(alias@),
            Err(Error::DuplicateAlias { alias: a, existing }) => alias_problem(alias@) is None
                && !reserved(alias@) && !force && registry@.contains_key(alias@) && a@ == alias@
                && existing@ == registry@[alias@].path,
            Err(_) => false,
        },
{
    match validate_alias(alias) {
        Ok(()) => {},
        Err(e) => return Err(e),
    }
    registry.check_available(alias, force)
}

/// Tags sorted, each once.
pub fn normalize_tags(tags: &Vec<String>) -> (res: Vec<String>)
    ensures
        strictly_sorted(views(res@)),
        forall|t: Seq<char>| views(res@).contains(t) <==> views(tags@).contains(t),
{
    let mut out: Vec<String> = Vec::new();
    let n = tags.len();
    let mut i: usize = 0;
    while i < n
        invariant
            n == tags@.len(),
            i <= n,
            strictly_sorted(views(out@)),
            forall|t: Seq<char>| views(out@).contains(t) <==> views(tags@).take(i as int).contains(t),
        decreases n - i,
    {
        let ghost seen = views(tags@).take(i as int);
        insert_text(&mut out, &tags[i]);
        proof {
            let now = views(tags@).take(i + 1);
            assert(now =~= seen.push(tags@[i as int]@));
            assert forall|t: Seq<char>| views(out@).contains(t) <==> now.contains(t) by {
                if now.contains(t) {
                    let k = choose|k: int| 0 <= k < now.len() && now[k] == t;
                    if k < i {
                        assert(seen[k] == t);
                    }
                }
                if seen.contains(t) {
                    let k = choose|k: int| 0 <= k < seen.len() && seen[k] == t;
                    assert(now[k] == t);
                }
                if t == tags@[i as int]@ {
                    assert(now[i as int] == t);
                }
            }
        }
        i += 1;
    }
    assert(views(tags@).take(n as int) =~= views(tags@));
    out
}

/// File `alias` at the repository root `root`, with its tags sorted and
/// deduplicated and the time it was added when the clock can be read.
/// Returns whether an entry was replaced, the tags as filed, and the time
/// filed with it.
pub fn record_registration(
    registry: &mut Registry,
    alias: &str,
    kind: VcsKind,
    root: &str,
    tags: &Vec<String>,
) -> (res: (bool, Vec<String>, Option<String>))
    ensures
        final(registry)@.contains_key(alias@),
        final(registry)@ == old(registry)@.insert(alias@, final(registry)@[alias@]),
        final(registry)@[alias@].path == root@,
        final(registry)@[alias@].kind == kind,
        final(registry)@[alias@].tags == views(res.1@),
        final(registry)@[alias@].added_at == crate::vcs::opt_text(res.2),
        strictly_sorted(views(res.1@)),
        forall|t: Seq<char>| views(res.1@).contains(t) <==> views(tags@).contains(t),
        res.0 == old(registry)@.contains_key(alias@),
        final(registry).location() == old(registry).location(),
{
    let filed = normalize_tags(tags);
    let stamp = now_rfc3339();
    let entry = RepoEntry {
        path: owned(root),
        kind,
        tags: crate::registry::model::copy_strings(&filed),
        added_at: crate::vcs::copy_opt(&stamp),
    };
    let replaced = registry.insert(owned(alias), entry);
    (replaced.is_some(), filed, stamp)
}

/// The receipt for a registration: `registered api [work] → ~/code/api`,
/// or `re-registered` when an entry was replaced.
pub open spec fn registered_text(
    replaced: bool,
    alias: Seq<char>,
    tags: Seq<Seq<char>>,
    path: Seq<char>,
    home: Option<Seq<char>>,
    color: bool,
) -> Seq<char> {
    (if replaced {
        "re-registered"@
    } else {
        "registered"@
    }) + " "@ + painted(alias, strong(), color) + (if tags.len() == 0 {
        Seq::empty()
    } else {
        " "@ + painted("["@ + joined(tags, ", "@) + "]"@, hue(Color::Magenta), color)
    }) + " "@ + painted("→"@, dim(), color) + " "@ + painted(abbreviated(path, home), dim(), color)
}

/// The receipt for a registration, the path shown against `home`.
pub fn registered_line(
    replaced: bool,
    alias: &str,
    tags: &Vec<String>,
    path: &str,
    home: Option<&str>,
    color: bool,
) -> (res: String)
    ensures
        res@ == registered_text(replaced, alias@, views(tags@), path@, opt_str(home), color),
{
    let mut s = if replaced {
        owned("re-registered")
    } else {
        owned("registered")
    };
    push_str(&mut s, " ");
    let a = paint(alias, Theme::alias(), color);
    push_str(&mut s, a.as_str());
    if tags.len() > 0 {
        push_str(&mut s, " ");
        let mut label = owned("[");
        let list = join(tags, ", ");
        push_str(&mut label, list.as_str());
        push_str(&mut label, "]");
        let t = paint(label.as_str(), Theme::tag(), color);
        push_str(&mut s, t.as_str());
    }
    push_str(&mut s, " ");
    let arrow = paint("→", Theme::muted(), color);
    push_str(&mut s, arrow.as_str());
    push_str(&mut s, " ");
    let shown = abbreviate(path, home);
    let p = paint(shown.as_str(), Theme::path(), color);
    push_str(&mut s, p.as_str());
    assert(s@ =~= registered_text(replaced, alias@, views(tags@), path@, opt_str(home), color));
    s
}

/// Removing `names` one after another from `m`: what is left, or the first
/// name that is not there when its turn comes.
pub open spec fn removal(
    m: Map<Seq<char>, RepoEntryV>,
    names: Seq<Seq<char>>,
) -> Result<Map<Seq<char>, RepoEntryV>, Seq<char>>
    decreases names.len(),
{
    if names.len() == 0 {
        Ok(m)
    } else if m.contains_key(names[0]) {
        removal(m.remove(names[0]), names.drop_first())
    } else {
        Err(names[0])
    }
}

/// Removing aliases that are all registered, none named twice, leaves the
/// registry without exactly those aliases, every other entry as it was.
pub proof fn law_removing_known_aliases_leaves_the_rest(
    m: Map<Seq<char>, RepoEntryV>,
    names: Seq<Seq<char>>,
)
    requires
        forall|i: int| 0 <= i < names.len() ==> m.contains_key(#[trigger] names[i]),
        forall|i: int, j: int| 0 <= i < j < names.len() ==> names[i] != names[j],
    ensures
        removal(m, names) == Ok::<Map<Seq<char>, RepoEntryV>, Seq<char>>(m.remove_keys(names.to_set())),
    decreases names.len(),
{
    if names.len() == 0 {
        assert(m.remove_keys(names.to_set()) =~= m);
    } else {
        let first = names[0];
        let rest = names.drop_first();
        assert(m.contains_key(names[0]));
        assert forall|i: int| 0 <= i < rest.len() implies m.remove(first).contains_key(#[trigger] rest[i]) by {
            assert(rest[i] == names[i + 1]);
            assert(names[0] != names[i + 1]);
        }
        assert forall|i: int, j: int| 0 <= i < j < rest.len() implies rest[i] != rest[j] by {
            assert(rest[i] == names[i + 1]);
            assert(rest[j] == names[j + 1]);
        }
        law_removing_known_aliases_leaves_the_rest(m.remove(first), rest);
        assert forall|x: Seq<char>| names.to_set().contains(x) <==> (x == first || rest.to_set().contains(x)) by {
            if names.to_set().contains(x) {
                let k = choose|k: int| 0 <= k < names.len() && names[k] == x;
                if k > 0 {
                    assert(rest[k - 1] == x);
                }
            }
            if rest.to_set().contains(x) {
                let k = choose|k: int| 0 <= k < rest.len() && rest[k] == x;
                assert(names[k + 1] == x);
            }
            if x == first {
                assert(names[0] == x);
            }
        }
        assert(m.remove(first).remove_keys(rest.to_set()) =~= m.remove_keys(names.to_set()));
    }
}

/// Remove every alias in `names`, in order, or none: an alias that is not
/// registered is reported before anything is removed. An alias named twice
/// is not there by its second turn, and is reported then. Returns the
/// entries removed, in order.
pub fn remove_all(registry: &mut Registry, names: &Vec<String>) -> (res: Result<Vec<RepoEntry>, Error>)
    ensures
        final(registry).location() == old(registry).location(),
        match res {
            Ok(entries) => !(exists|k: int| first_unknown(old(registry)@, views(names@), k))
                && removal(old(registry)@, views(names@)) is Ok
                && final(registry)@ == removal(old(registry)@, views(names@))->Ok_0
                && entries@.map_values(|e: RepoEntry| e@) == views(names@).map_values(
                |a: Seq<char>| old(registry)@[a],
            ),
            Err(Error::UnknownAlias(a)) => {
                ||| exists|k: int|
                    first_unknown(old(registry)@, views(names@), k) && views(names@)[k] == a@
                        && final(registry)@ == old(registry)@
                ||| !(exists|k: int| first_unknown(old(registry)@, views(names@), k))
                    && removal(old(registry)@, views(names@)) == Err::<
                    Map<Seq<char>, RepoEntryV>,
                    Seq<char>,
                >(a@)
            },
            Err(_) => false,
        },
{
    let ghost ns = views(names@);
    let ghost m0 = registry@;
    match registry.select(names, None) {
        Ok(_) => {},
        Err(e) => {
            proof {
                if names@.len() == 0 {
                    assert(false);
                }
            }
            return Err(e);
        },
    }
    assert(!(exists|k: int| first_unknown(m0, ns, k)));
    assert(ns.skip(0) =~= ns);
    let mut entries: Vec<RepoEntry> = Vec::new();
    let n = names.len();
    let mut i: usize = 0;
    while i < n
        invariant
            n == names@.len(),
            ns == views(names@),
            i <= n,
            registry.location() == old(registry).location(),
            m0 == old(registry)@,
            !(exists|k: int| first_unknown(m0, ns, k)),
            removal(m0, ns) == removal(registry@, ns.skip(i as int)),
            forall|x: Seq<char>| #[trigger] registry@.contains_key(x) ==> m0.contains_key(x) && registry@[x] == m0[x],
            entries@.map_values(|e: RepoEntry| e@) == ns.take(i as int).map_values(|a: Seq<char>| m0[a]),
        decreases n - i,
    {
        let ghost before = registry@;
        assert(ns.skip(i as int)[0] == ns[i as int]);
        assert(ns.skip(i as int).drop_first() =~= ns.skip(i + 1));
        match registry.remove(names[i].as_str()) {
            Ok(e) => {
                let ghost pre = entries@.map_values(|e: RepoEntry| e@);
                entries.push(e);
                assert(entries@.map_values(|e: RepoEntry| e@) =~= pre.push(m0[ns[i as int]]));
                assert(ns.take(i + 1) =~= ns.take(i as int).push(ns[i as int]));
                assert(ns.take(i + 1).map_values(|a: Seq<char>| m0[a]) =~= ns.take(i as int).map_values(
                    |a: Seq<char>| m0[a],
                ).push(m0[ns[i as int]]));
            },
            Err(e) => {
                return Err(e);
            },
        }
        assert forall|x: Seq<char>| registry@.contains_key(x) implies m0.contains_key(x) && registry@[x] == m0[x] by {
            assert(before.contains_key(x));
        }
        i += 1;
    }
    assert(ns.skip(n as int) =~= Seq::<Seq<char>>::empty());
    assert(ns.take(n as int) =~= ns);
    Ok(entries)
}

/// The receipt for one removal: `removed api ← ~/code/api`.
pub open spec fn removed_text(alias: Seq<char>, path: Seq<char>, home: Option<Seq<char>>, color: bool) -> Seq<char> {
    "removed "@ + painted(alias, strong(), color) + " "@ + painted("←"@, dim(), color) + " "@
        + painted(abbreviated(path, home), dim(), color)
}

/// The receipt for one removal, the path shown against `home`.
pub fn removed_line(alias: &str, path: &str, home: Option<&str>, color: bool) -> (res: String)
    ensures
        res@ == removed_text(alias@, path@, opt_str(home), color),
{
    let mut s = owned("removed ");
    let a = paint(alias, Theme::alias(), color);
    push_str(&mut s, a.as_str());
    push_str(&mut s, " ");
    let arrow = paint("←", Theme::muted(), color);
    push_str(&mut s, arrow.as_str());
    push_str(&mut s, " ");
    let shown = abbreviate(path, home);
    let p = paint(shown.as_str(), Theme::path(), color);
    push_str(&mut s, p.as_str());
    assert(s@ =~= removed_text(alias@, path@, opt_str(home), color));
    s
}

} // verus!
