//! Load, query and keep the set of registered repositories.
//!
//! Commands never touch the config file's shape directly: they go through
//! [`Registry`], which keeps its entries in alphabetical order of alias, so
//! every listing comes out in the same order whatever order it was filled in.
pub mod location;
pub mod model;

use vstd::prelude::*;

use crate::error::Error;
use crate::registry::model::{
    repo_views, RegistryFile, Repo, RepoEntry, RepoEntryV, RepoV, FORMAT_VERSION,
};
use crate::text::{
    chars_of, lemma_text_lt_asymmetric, lemma_text_lt_irreflexive, lemma_text_lt_total,
    lemma_text_lt_transitive, owned, push_str, same_text, string_of_range, text_less, text_lt,
    views,
};

verus! {

/// Environment variable that overrides the config file path entirely.
pub const CONFIG_ENV: &'static str = "GRIT_CONFIG";

/// The sigil that turns a name into a tag lookup: `grit @release fetch`.
pub const GROUP_SIGIL: char = '@';

/// Names that can never be aliases, because `grit <name>` already means
/// something else.
pub const RESERVED_ALIASES: [&'static str; 14] = [
    "add",
    "branch",
    "clone",
    "completions",
    "detail",
    "help",
    "register",
    "remove",
    "rm",
    "run",
    "shell",
    "show",
    "status",
    "version",
];

/// The first lines of the config file, above what the serializer writes.
pub const CONFIG_HEADER: &'static str = "# grit registry — safe to edit by hand.\n# `grit show` lists what is in here; `grit -r <alias> <path>` adds to it.\n\n";

/// Aliases in strictly increasing order, so none occurs twice.
pub open spec fn sorted(s: Seq<RepoV>) -> bool {
    forall|i: int, j: int|
        0 <= i < j < s.len() ==> text_lt(#[trigger] s[i].alias, #[trigger] s[j].alias)
}

/// Texts in strictly increasing order, so none occurs twice.
pub open spec fn strictly_sorted(v: Seq<Seq<char>>) -> bool {
    forall|i: int, j: int| 0 <= i < j < v.len() ==> text_lt(#[trigger] v[i], #[trigger] v[j])
}

/// What a listing files under each alias.
pub open spec fn contents(s: Seq<RepoV>) -> Map<Seq<char>, RepoEntryV>
    decreases s.len(),
{
    if s.len() == 0 {
        Map::empty()
    } else {
        contents(s.drop_first()).insert(s[0].alias, s[0].entry)
    }
}

/// What filing the entries of `s` one after another leaves, a later entry
/// under an alias replacing an earlier one.
pub open spec fn filed(s: Seq<RepoV>) -> Map<Seq<char>, RepoEntryV>
    decreases s.len(),
{
    if s.len() == 0 {
        Map::empty()
    } else {
        filed(s.drop_last()).insert(s.last().alias, s.last().entry)
    }
}

/// The entry carries the tag.
pub open spec fn carries(r: RepoV, tag: Seq<char>) -> bool {
    r.entry.tags.contains(tag)
}

/// The repos of a listing that carry the tag, in listing order.
pub open spec fn tagged(s: Seq<RepoV>, tag: Seq<char>) -> Seq<RepoV> {
    s.filter(|r: RepoV| carries(r, tag))
}

/// Some repo among the first `n` of the listing carries the tag.
pub open spec fn tag_in_prefix(s: Seq<RepoV>, n: int, tag: Seq<char>) -> bool {
    exists|a: int, b: int|
        0 <= a < n && 0 <= b < s[a].entry.tags.len() && #[trigger] s[a].entry.tags[b] == tag
}

/// Some repo of the listing carries the tag.
pub open spec fn tag_in_use(s: Seq<RepoV>, tag: Seq<char>) -> bool {
    tag_in_prefix(s, s.len() as int, tag)
}

/// `v` lists every tag in use, once each, alphabetically.
pub open spec fn lists_tags(s: Seq<RepoV>, v: Seq<Seq<char>>) -> bool {
    &&& strictly_sorted(v)
    &&& forall|t: Seq<char>| v.contains(t) <==> tag_in_use(s, t)
}

/// The repos filed under the given aliases, in the order given.
pub open spec fn picked(m: Map<Seq<char>, RepoEntryV>, aliases: Seq<Seq<char>>) -> Seq<RepoV> {
    aliases.map_values(|a: Seq<char>| RepoV { alias: a, entry: m[a] })
}

/// The `k`th alias is the first of them that is not filed.
pub open spec fn first_unknown(
    m: Map<Seq<char>, RepoEntryV>,
    aliases: Seq<Seq<char>>,
    k: int,
) -> bool {
    &&& 0 <= k < aliases.len()
    &&& !m.contains_key(aliases[k])
    &&& forall|j: int| 0 <= j < k ==> m.contains_key(#[trigger] aliases[j])
}

/// An alias that no entry of the listing carries is not filed.
proof fn lemma_absent(s: Seq<RepoV>, a: Seq<char>)
    requires
        forall|i: int| 0 <= i < s.len() ==> (#[trigger] s[i]).alias != a,
    ensures
        !contents(s).contains_key(a),
    decreases s.len(),
{
    if s.len() > 0 {
        let t = s.drop_first();
        assert forall|i: int| 0 <= i < t.len() implies (#[trigger] t[i]).alias != a by {
            assert(t[i] == s[i + 1]);
        }
        lemma_absent(t, a);
    }
}

/// The tail of a sorted listing is sorted.
proof fn lemma_sorted_tail(s: Seq<RepoV>)
    requires
        sorted(s),
        s.len() > 0,
    ensures
        sorted(s.drop_first()),
{
    let t = s.drop_first();
    assert forall|i: int, j: int| 0 <= i < j < t.len() implies text_lt(
        #[trigger] t[i].alias,
        #[trigger] t[j].alias,
    ) by {
        assert(t[i] == s[i + 1]);
        assert(t[j] == s[j + 1]);
    }
}

/// In a sorted listing each entry is filed under its alias.
proof fn lemma_filed_at(s: Seq<RepoV>, i: int)
    requires
        sorted(s),
        0 <= i < s.len(),
    ensures
        contents(s).contains_key(s[i].alias),
        contents(s)[s[i].alias] == s[i].entry,
    decreases s.len(),
{
    if i > 0 {
        let t = s.drop_first();
        lemma_sorted_tail(s);
        assert(t[i - 1] == s[i]);
        lemma_filed_at(t, i - 1);
        assert(text_lt(s[0].alias, s[i].alias));
        lemma_text_lt_irreflexive(s[i].alias);
    }
}

/// Every filed alias belongs to an entry of the listing.
proof fn lemma_filed_only(s: Seq<RepoV>, a: Seq<char>)
    requires
        contents(s).contains_key(a),
    ensures
        exists|i: int| 0 <= i < s.len() && (#[trigger] s[i]).alias == a,
    decreases s.len(),
{
    if s.len() > 0 && s[0].alias != a {
        let t = s.drop_first();
        lemma_filed_only(t, a);
        let k = choose|k: int| 0 <= k < t.len() && (#[trigger] t[k]).alias == a;
        assert(s[k + 1] == t[k]);
    } else if s.len() > 0 {
        assert(s[0].alias == a);
    }
}

/// The first entry of a sorted listing is filed on top of the rest.
proof fn lemma_contents_tail(s: Seq<RepoV>)
    requires
        sorted(s),
        s.len() > 0,
    ensures
        contents(s.drop_first()) == contents(s).remove(s[0].alias),
{
    let t = s.drop_first();
    assert forall|i: int| 0 <= i < t.len() implies (#[trigger] t[i]).alias != s[0].alias by {
        assert(t[i] == s[i + 1]);
        assert(text_lt(s[0].alias, s[i + 1].alias));
        lemma_text_lt_irreflexive(s[0].alias);
    }
    lemma_absent(t, s[0].alias);
    assert(contents(t) =~= contents(s).remove(s[0].alias));
}

/// Putting a new entry into a listing files it on top of what was there.
proof fn lemma_contents_insert(s: Seq<RepoV>, pos: int, r: RepoV)
    requires
        0 <= pos <= s.len(),
        forall|k: int| 0 <= k < pos ==> (#[trigger] s[k]).alias != r.alias,
    ensures
        contents(s.insert(pos, r)) == contents(s).insert(r.alias, r.entry),
    decreases pos,
{
    let n = s.insert(pos, r);
    if pos == 0 {
        assert(n.drop_first() =~= s);
    } else {
        let t = s.drop_first();
        assert(n.drop_first() =~= t.insert(pos - 1, r));
        assert forall|k: int| 0 <= k < pos - 1 implies (#[trigger] t[k]).alias != r.alias by {
            assert(t[k] == s[k + 1]);
        }
        lemma_contents_insert(t, pos - 1, r);
        assert(n[0] == s[0]);
        assert(s[0].alias != r.alias);
        assert(contents(n) =~= contents(s).insert(r.alias, r.entry));
    }
}

/// Replacing the entry under an alias files the new one in its place.
proof fn lemma_contents_update(s: Seq<RepoV>, pos: int, r: RepoV)
    requires
        0 <= pos < s.len(),
        s[pos].alias == r.alias,
        forall|k: int| 0 <= k < pos ==> (#[trigger] s[k]).alias != r.alias,
    ensures
        contents(s.update(pos, r)) == contents(s).insert(r.alias, r.entry),
    decreases pos,
{
    let n = s.update(pos, r);
    if pos == 0 {
        assert(n.drop_first() =~= s.drop_first());
        assert(contents(n) =~= contents(s).insert(r.alias, r.entry));
    } else {
        let t = s.drop_first();
        assert(n.drop_first() =~= t.update(pos - 1, r));
        assert forall|k: int| 0 <= k < pos - 1 implies (#[trigger] t[k]).alias != r.alias by {
            assert(t[k] == s[k + 1]);
        }
        assert(t[pos - 1] == s[pos]);
        lemma_contents_update(t, pos - 1, r);
        assert(n[0] == s[0]);
        assert(s[0].alias != r.alias);
        assert(contents(n) =~= contents(s).insert(r.alias, r.entry));
    }
}

/// Taking an entry out of a sorted listing unfiles its alias.
proof fn lemma_contents_remove(s: Seq<RepoV>, pos: int)
    requires
        sorted(s),
        0 <= pos < s.len(),
    ensures
        contents(s.remove(pos)) == contents(s).remove(s[pos].alias),
    decreases pos,
{
    let n = s.remove(pos);
    let t = s.drop_first();
    if pos == 0 {
        assert(n =~= t);
        lemma_contents_tail(s);
    } else {
        lemma_sorted_tail(s);
        assert(n.drop_first() =~= t.remove(pos - 1));
        assert(t[pos - 1] == s[pos]);
        lemma_contents_remove(t, pos - 1);
        assert(n[0] == s[0]);
        assert(text_lt(s[0].alias, s[pos].alias));
        lemma_text_lt_irreflexive(s[0].alias);
        assert(contents(n) =~= contents(s).remove(s[pos].alias));
    }
}

/// Two registries that file the same entries list them in the same order,
/// whatever order each was filled in.
pub proof fn law_listing_follows_contents(s1: Seq<RepoV>, s2: Seq<RepoV>)
    requires
        sorted(s1),
        sorted(s2),
        contents(s1) == contents(s2),
    ensures
        s1 == s2,
    decreases s1.len(),
{
    if s1.len() == 0 && s2.len() > 0 {
        lemma_filed_at(s2, 0);
    } else if s1.len() > 0 && s2.len() == 0 {
        lemma_filed_at(s1, 0);
    } else if s1.len() > 0 {
        let a1 = s1[0].alias;
        let a2 = s2[0].alias;
        lemma_filed_at(s1, 0);
        lemma_filed_at(s2, 0);
        if a1 != a2 {
            lemma_filed_only(s2, a1);
            lemma_filed_only(s1, a2);
            let j = choose|j: int| 0 <= j < s2.len() && (#[trigger] s2[j]).alias == a1;
            let i = choose|i: int| 0 <= i < s1.len() && (#[trigger] s1[i]).alias == a2;
            assert(j > 0);
            assert(i > 0);
            assert(text_lt(a2, a1));
            assert(text_lt(a1, a2));
            lemma_text_lt_asymmetric(a1, a2);
        }
        lemma_contents_tail(s1);
        lemma_contents_tail(s2);
        lemma_sorted_tail(s1);
        lemma_sorted_tail(s2);
        law_listing_follows_contents(s1.drop_first(), s2.drop_first());
        assert(s1 =~= seq![s1[0]] + s1.drop_first());
        assert(s2 =~= seq![s2[0]] + s2.drop_first());
    }
}

/// One of the first `j` tags is `tag`.
pub open spec fn tag_in_first(tags: Seq<Seq<char>>, j: int, tag: Seq<char>) -> bool {
    exists|b: int| 0 <= b < j && 0 <= b < tags.len() && #[trigger] tags[b] == tag
}

proof fn lemma_tag_in_first_step(tags: Seq<Seq<char>>, j: int, tag: Seq<char>)
    requires
        0 <= j < tags.len(),
    ensures
        tag_in_first(tags, j + 1, tag) <==> (tag_in_first(tags, j, tag) || tags[j] == tag),
{
    if tag_in_first(tags, j + 1, tag) && tags[j] != tag {
        let b = choose|b: int| 0 <= b < j + 1 && 0 <= b < tags.len() && #[trigger] tags[b] == tag;
        assert(b < j);
    }
}

proof fn lemma_tag_in_prefix_step(s: Seq<RepoV>, i: int, tag: Seq<char>)
    requires
        0 <= i < s.len(),
    ensures
        tag_in_prefix(s, i + 1, tag) <==> (tag_in_prefix(s, i, tag) || tag_in_first(
            s[i].entry.tags,
            s[i].entry.tags.len() as int,
            tag,
        )),
{
    let tags = s[i].entry.tags;
    if tag_in_prefix(s, i + 1, tag) && !tag_in_prefix(s, i, tag) {
        let (a, b) = choose|a: int, b: int|
            0 <= a < i + 1 && 0 <= b < s[a].entry.tags.len() && #[trigger] s[a].entry.tags[b] == tag;
        if a < i {
            assert(tag_in_prefix(s, i, tag));
        }
        assert(tags[b] == tag);
    }
    if tag_in_prefix(s, i, tag) {
        let (a, b) = choose|a: int, b: int|
            0 <= a < i && 0 <= b < s[a].entry.tags.len() && #[trigger] s[a].entry.tags[b] == tag;
        assert(s[a].entry.tags[b] == tag);
    }
    if tag_in_first(tags, tags.len() as int, tag) {
        let b = choose|b: int|
            0 <= b < tags.len() && 0 <= b < tags.len() && #[trigger] tags[b] == tag;
        assert(s[i].entry.tags[b] == tag);
    }
}

proof fn lemma_filed_holds(s: Seq<RepoV>, a: Seq<char>)
    ensures
        filed(s).contains_key(a) <==> exists|i: int| 0 <= i < s.len() && (#[trigger] s[i]).alias == a,
    decreases s.len(),
{
    if s.len() > 0 {
        let t = s.drop_last();
        lemma_filed_holds(t, a);
        if filed(s).contains_key(a) && s.last().alias != a {
            let k = choose|k: int| 0 <= k < t.len() && (#[trigger] t[k]).alias == a;
            assert(s[k] == t[k]);
        }
        if exists|i: int| 0 <= i < s.len() && (#[trigger] s[i]).alias == a {
            let k = choose|k: int| 0 <= k < s.len() && (#[trigger] s[k]).alias == a;
            if k < s.len() - 1 {
                assert(t[k] == s[k]);
            }
        }
    }
}

proof fn lemma_filed_sorted_at(s: Seq<RepoV>, i: int)
    requires
        sorted(s),
        0 <= i < s.len(),
    ensures
        filed(s)[s[i].alias] == s[i].entry,
    decreases s.len(),
{
    let t = s.drop_last();
    if i < s.len() - 1 {
        assert(sorted(t)) by {
            assert forall|x: int, y: int| 0 <= x < y < t.len() implies text_lt(
                #[trigger] t[x].alias,
                #[trigger] t[y].alias,
            ) by {
                assert(t[x] == s[x]);
                assert(t[y] == s[y]);
            }
        }
        assert(t[i] == s[i]);
        lemma_filed_sorted_at(t, i);
        assert(text_lt(s[i].alias, s.last().alias));
        lemma_text_lt_irreflexive(s[i].alias);
    }
}

/// A registry written out as its listing and read back files exactly what
/// it held: filing a sorted listing entry by entry leaves its contents.
pub proof fn law_a_saved_registry_loads_back(listing: Seq<RepoV>)
    requires
        sorted(listing),
    ensures
        filed(listing) == contents(listing),
{
    assert forall|a: Seq<char>| #[trigger] filed(listing).contains_key(a) == contents(listing).contains_key(a) by {
        lemma_filed_holds(listing, a);
        if contents(listing).contains_key(a) {
            lemma_filed_only(listing, a);
        }
        if filed(listing).contains_key(a) {
            let k = choose|k: int| 0 <= k < listing.len() && (#[trigger] listing[k]).alias == a;
            lemma_filed_at(listing, k);
        }
    }
    assert forall|a: Seq<char>| #[trigger] filed(listing).contains_key(a) implies filed(listing)[a] == contents(listing)[a] by {
        lemma_filed_holds(listing, a);
        let k = choose|k: int| 0 <= k < listing.len() && (#[trigger] listing[k]).alias == a;
        lemma_filed_at(listing, k);
        lemma_filed_sorted_at(listing, k);
    }
    assert(filed(listing) =~= contents(listing));
}

/// Filing an entry under an alias and looking the alias up gives that entry
/// back, and what is filed under every other alias stays as it was.
pub proof fn law_get_after_insert(
    before: Map<Seq<char>, RepoEntryV>,
    alias: Seq<char>,
    entry: RepoEntryV,
    other: Seq<char>,
)
    requires
        other != alias,
    ensures
        before.insert(alias, entry).contains_key(alias),
        before.insert(alias, entry)[alias] == entry,
        before.insert(alias, entry).contains_key(other) == before.contains_key(other),
        before.contains_key(other) ==> before.insert(alias, entry)[other] == before[other],
{
}

/// Unregistering an alias that was just registered, and was not before,
/// leaves the registry as it was.
pub proof fn law_remove_undoes_insert(
    before: Map<Seq<char>, RepoEntryV>,
    alias: Seq<char>,
    entry: RepoEntryV,
)
    requires
        !before.contains_key(alias),
    ensures
        before.insert(alias, entry).remove(alias) == before,
{
    assert(before.insert(alias, entry).remove(alias) =~= before);
}

/// Where `alias` belongs in a sorted list of repos: after every alias that
/// comes before it, and before every other.
fn position(repos: &Vec<Repo>, alias: &str) -> (res: usize)
    requires
        sorted(repo_views(repos@)),
    ensures
        res <= repos@.len(),
        forall|k: int| 0 <= k < res ==> text_lt((#[trigger] repos@[k]).alias@, alias@),
        forall|k: int| res <= k < repos@.len() ==> !text_lt((#[trigger] repos@[k]).alias@, alias@),
{
    let n = repos.len();
    let mut i: usize = 0;
    while i < n && text_less(repos[i].alias.as_str(), alias)
        invariant
            n == repos@.len(),
            i <= n,
            forall|k: int| 0 <= k < i ==> text_lt((#[trigger] repos@[k]).alias@, alias@),
        decreases n - i,
    {
        i += 1;
    }
    proof {
        let s = repo_views(repos@);
        assert forall|k: int| i <= k < repos@.len() implies !text_lt(
            (#[trigger] repos@[k]).alias@,
            alias@,
        ) by {
            if k > i {
                assert(s[i as int] == repos@[i as int]@);
                assert(s[k] == repos@[k]@);
                assert(text_lt(s[i as int].alias, s[k].alias));
                if text_lt(repos@[k].alias@, alias@) {
                    lemma_text_lt_transitive(repos@[i as int].alias@, repos@[k].alias@, alias@);
                }
            }
        }
    }
    i
}

/// Whether the entry carries the tag.
fn carries_tag(entry: &RepoEntry, tag: &str) -> (res: bool)
    ensures
        res == entry@.tags.contains(tag@),
{
    let n = entry.tags.len();
    let mut j: usize = 0;
    while j < n
        invariant
            n == entry.tags@.len(),
            j <= n,
            forall|b: int| 0 <= b < j ==> (#[trigger] entry.tags@[b])@ != tag@,
        decreases n - j,
    {
        if same_text(entry.tags[j].as_str(), tag) {
            assert(entry@.tags[j as int] == tag@);
            return true;
        }
        j += 1;
    }
    assert forall|b: int| 0 <= b < entry@.tags.len() implies entry@.tags[b] != tag@ by {
        assert(entry@.tags[b] == entry.tags@[b]@);
    }
    false
}

/// File the text `t` into a strictly sorted list, unless it is there.
pub(crate) fn insert_text(out: &mut Vec<String>, t: &String)
    requires
        strictly_sorted(views(old(out)@)),
    ensures
        strictly_sorted(views(final(out)@)),
        forall|x: Seq<char>|
            views(final(out)@).contains(x) <==> (views(old(out)@).contains(x) || x == t@),
{
    let ghost old_v = views(out@);
    let n = out.len();
    let mut i: usize = 0;
    while i < n && text_less(out[i].as_str(), t.as_str())
        invariant
            n == out@.len(),
            i <= n,
            forall|k: int| 0 <= k < i ==> text_lt((#[trigger] out@[k])@, t@),
        decreases n - i,
    {
        i += 1;
    }
    if i < n && same_text(out[i].as_str(), t.as_str()) {
        assert(old_v[i as int] == t@);
        return;
    }
    proof {
        assert forall|k: int| i <= k < n implies text_lt(t@, (#[trigger] out@[k])@) by {
            assert(old_v[k] == out@[k]@);
            assert(old_v[i as int] == out@[i as int]@);
            if k > i {
                assert(text_lt(old_v[i as int], old_v[k]));
                if text_lt(out@[k]@, t@) {
                    lemma_text_lt_transitive(out@[i as int]@, out@[k]@, t@);
                }
                if out@[k]@ == t@ {
                    lemma_text_lt_asymmetric(out@[i as int]@, t@);
                }
            }
            lemma_text_lt_total(t@, out@[k]@);
        }
    }
    out.insert(i, t.clone());
    proof {
        let nv = views(out@);
        assert(nv =~= old_v.insert(i as int, t@));
        assert forall|a: int, b: int| 0 <= a < b < nv.len() implies text_lt(
            #[trigger] nv[a],
            #[trigger] nv[b],
        ) by {
            if a < i && b > i {
                lemma_text_lt_transitive(nv[a], t@, nv[b]);
            }
        }
        assert forall|x: Seq<char>| nv.contains(x) <==> (old_v.contains(x) || x == t@) by {
            if nv.contains(x) {
                let k = choose|k: int| 0 <= k < nv.len() && nv[k] == x;
                if k < i {
                    assert(old_v[k] == x);
                } else if k > i {
                    assert(old_v[k - 1] == x);
                }
            }
            if old_v.contains(x) {
                let k = choose|k: int| 0 <= k < old_v.len() && old_v[k] == x;
                if k < i {
                    assert(nv[k] == x);
                } else {
                    assert(nv[k + 1] == x);
                }
            }
            if x == t@ {
                assert(nv[i as int] == x);
            }
        }
    }
}

/// Whether the name asks for a tag group rather than an alias.
pub open spec fn is_group(target: Seq<char>) -> bool {
    target.len() > 0 && target[0] == GROUP_SIGIL
}

/// A character an alias may contain.
pub open spec fn alias_char(c: char) -> bool {
    ||| ('a' <= c && c <= 'z')
    ||| ('A' <= c && c <= 'Z')
    ||| ('0' <= c && c <= '9')
    ||| c == '-'
    ||| c == '_'
    ||| c == '.'
}

/// Why an alias cannot be used at all, if it cannot: checked in this order,
/// the first reason that applies.
pub open spec fn alias_problem(a: Seq<char>) -> Option<Seq<char>> {
    if a.len() == 0 {
        Some("it is empty"@)
    } else if a[0] == GROUP_SIGIL {
        Some("`@` is reserved for tag groups, as in `@release`"@)
    } else if a[0] == '-' {
        Some("it would be parsed as a flag"@)
    } else if exists|k: int| 0 <= k < a.len() && !alias_char(#[trigger] a[k]) {
        let k = choose|k: int|
            0 <= k < a.len() && !alias_char(#[trigger] a[k]) && forall|j: int|
                0 <= j < k ==> alias_char(#[trigger] a[j]);
        Some("`"@ + seq![a[k]] + "` is not allowed"@)
    } else {
        None
    }
}

/// The alias is the name of a grit command.
pub open spec fn reserved(a: Seq<char>) -> bool {
    exists|k: int| 0 <= k < RESERVED_ALIASES@.len() && (#[trigger] RESERVED_ALIASES@[k])@ == a
}

/// Reject aliases that would be ambiguous, unusable, or would shadow a command.
pub fn validate_alias(alias: &str) -> (res: Result<(), Error>)
    ensures
        match res {
            Ok(()) => alias_problem(alias@) is None && !reserved(alias@),
            Err(Error::InvalidAlias { alias: a, reason }) => a@ == alias@ && alias_problem(alias@)
                == Some(reason@),
            Err(Error::ReservedAlias(a)) => a@ == alias@ && alias_problem(alias@) is None
                && reserved(alias@),
            Err(_) => false,
        },
{
    let c = chars_of(alias);
    let reason: Option<String> = if c.len() == 0 {
        Some(owned("it is empty"))
    } else if c[0] == GROUP_SIGIL {
        Some(owned("`@` is reserved for tag groups, as in `@release`"))
    } else if c[0] == '-' {
        Some(owned("it would be parsed as a flag"))
    } else {
        let n = c.len();
        let mut k: usize = 0;
        let mut bad: Option<String> = None;
        while k < n
            invariant
                n == c@.len(),
                c@ == alias@,
                k <= n,
                bad is None ==> forall|j: int| 0 <= j < k ==> alias_char(#[trigger] c@[j]),
                bad matches Some(b) ==> k == n && exists|i: int|
                    0 <= i < n && !alias_char(#[trigger] c@[i]) && (forall|j: int|
                        0 <= j < i ==> alias_char(#[trigger] c@[j])) && b@ == "`"@ + seq![c@[i]]
                        + "` is not allowed"@,
            decreases n - k,
        {
            let ch = c[k];
            let ok = ('a' <= ch && ch <= 'z') || ('A' <= ch && ch <= 'Z') || ('0' <= ch && ch
                <= '9') || ch == '-' || ch == '_' || ch == '.';
            if !ok {
                let mut b = owned("`");
                b.push(ch);
                push_str(&mut b, "` is not allowed");
                bad = Some(b);
                k = n;
            } else {
                k += 1;
            }
        }
        bad
    };
    proof {
        if c@.len() > 0 && c@[0] != GROUP_SIGIL && c@[0] != '-' {
            if reason is Some {
                let b = reason->0;
                {
                    let i = choose|i: int|
                        0 <= i < c@.len() && !alias_char(#[trigger] c@[i]) && (forall|j: int|
                            0 <= j < i ==> alias_char(#[trigger] c@[j])) && b@ == "`"@ + seq![
                            c@[i]] + "` is not allowed"@;
                    let k = choose|k: int|
                        0 <= k < alias@.len() && !alias_char(#[trigger] alias@[k]) && forall|
                            j: int,
                        | 0 <= j < k ==> alias_char(#[trigger] alias@[j]);
                    if k < i {
                        assert(alias_char(c@[k]));
                    }
                    if i < k {
                        assert(alias_char(alias@[i]));
                    }
                }
            }
        }
    }
    match reason {
        Some(r) => {
            return Err(Error::InvalidAlias { alias: owned(alias), reason: r });
        },
        None => {},
    }
    assert(alias_problem(alias@) is None);
    let list = RESERVED_ALIASES;
    let mut k: usize = 0;
    while k < 14
        invariant
            alias_problem(alias@) is None,
            list@ == RESERVED_ALIASES@,
            RESERVED_ALIASES@.len() == 14,
            k <= 14,
            forall|j: int| 0 <= j < k ==> (#[trigger] RESERVED_ALIASES@[j])@ != alias@,
        decreases 14 - k,
    {
        if same_text(list[k], alias) {
            assert(RESERVED_ALIASES@[k as int]@ == alias@);
            return Err(Error::ReservedAlias(owned(alias)));
        }
        k += 1;
    }
    Ok(())
}

/// The text of the config file: the header, then the serialized registry.
pub fn config_text(body: &str) -> (res: String)
    ensures
        res@ == CONFIG_HEADER@ + body@,
{
    let mut s = owned(CONFIG_HEADER);
    push_str(&mut s, body);
    s
}

/// The registered repositories, kept in alphabetical order of alias.
#[derive(Debug)]
pub struct Registry {
    repos: Vec<Repo>,
    version: u32,
    path: String,
}

impl Registry {
    #[verifier::type_invariant]
    spec fn well_formed(self) -> bool {
        sorted(repo_views(self.repos@))
    }

    /// Every entry, in alphabetical order of alias.
    pub closed spec fn listing(self) -> Seq<RepoV> {
        repo_views(self.repos@)
    }

    /// Where the registry is kept.
    pub closed spec fn location(self) -> Seq<char> {
        self.path@
    }

    /// The format version the registry was read in.
    pub closed spec fn format(self) -> u32 {
        self.version
    }

    /// An empty registry that would be saved to `path`.
    pub fn empty_at(path: &str) -> (res: Registry)
        ensures
            res.listing().len() == 0,
            res@ == Map::<Seq<char>, RepoEntryV>::empty(),
            res.location() == path@,
            res.format() == FORMAT_VERSION,
    {
        let r = Registry { repos: Vec::new(), version: FORMAT_VERSION, path: owned(path) };
        assert(r.listing() =~= Seq::<RepoV>::empty());
        r
    }

    /// The registry a config file at `path` holds; one written in a newer
    /// format than this build reads is refused.
    pub fn from_file(path: &str, file: RegistryFile) -> (res: Result<Registry, Error>)
        ensures
            match res {
                Ok(r) => file.version <= FORMAT_VERSION && r@ == filed(repo_views(file.repos@))
                    && sorted(r.listing()) && r.location() == path@ && r.format() == file.version,
                Err(Error::ConfigVersion { path: p, found, supported }) => file.version
                    > FORMAT_VERSION && p@ == path@ && found == file.version && supported
                    == FORMAT_VERSION,
                Err(_) => false,
            },
    {
        if file.version > FORMAT_VERSION {
            return Err(
                Error::ConfigVersion {
                    path: owned(path),
                    found: file.version,
                    supported: FORMAT_VERSION,
                },
            );
        }
        let mut r = Registry { repos: Vec::new(), version: file.version, path: owned(path) };
        assert(r.listing() =~= Seq::<RepoV>::empty());
        assert(filed(repo_views(file.repos@).take(0)) =~= r@);
        let ghost all = repo_views(file.repos@);
        let n = file.repos.len();
        let mut i: usize = 0;
        while i < n
            invariant
                n == file.repos@.len(),
                all == repo_views(file.repos@),
                i <= n,
                r@ == filed(all.take(i as int)),
                sorted(r.listing()),
                r.location() == path@,
                r.format() == file.version,
            decreases n - i,
        {
            let item = file.repos[i].copy();
            r.insert(item.alias, item.entry);
            assert(all.take(i + 1).drop_last() =~= all.take(i as int));
            i += 1;
        }
        assert(all.take(n as int) =~= all);
        Ok(r)
    }

    /// Where the registry is kept.
    pub fn path(&self) -> (res: &str)
        ensures
            res@ == self.location(),
    {
        self.path.as_str()
    }

    /// No repo is registered.
    pub fn is_empty(&self) -> (res: bool)
        ensures
            res == (self.listing().len() == 0),
            res == (self@ == Map::<Seq<char>, RepoEntryV>::empty()),
    {
        proof {
            use_type_invariant(self);
            if self.listing().len() > 0 {
                lemma_filed_at(self.listing(), 0);
            } else {
                assert(self@ =~= Map::<Seq<char>, RepoEntryV>::empty());
            }
        }
        self.repos.len() == 0
    }

    /// Every repo, alphabetically by alias.
    pub fn all(&self) -> (res: Vec<Repo>)
        ensures
            repo_views(res@) == self.listing(),
            sorted(repo_views(res@)),
    {
        proof {
            use_type_invariant(self);
        }
        let n = self.repos.len();
        let mut res: Vec<Repo> = Vec::new();
        let mut i: usize = 0;
        while i < n
            invariant
                n == self.repos@.len(),
                i <= n,
                repo_views(res@) == repo_views(self.repos@).take(i as int),
            decreases n - i,
        {
            let ghost before = res@;
            res.push(self.repos[i].copy());
            assert(repo_views(res@) =~= repo_views(before).push(self.repos@[i as int]@));
            assert(repo_views(self.repos@).take(i + 1) =~= repo_views(self.repos@).take(
                i as int,
            ).push(self.repos@[i as int]@));
            i += 1;
        }
        assert(repo_views(self.repos@).take(n as int) =~= repo_views(self.repos@));
        res
    }

    /// What the config file should hold for this registry.
    pub fn file(&self) -> (res: RegistryFile)
        ensures
            res.version == self.format(),
            repo_views(res.repos@) == self.listing(),
    {
        RegistryFile { version: self.version, repos: self.all() }
    }

    /// Every distinct tag in use, alphabetically.
    pub fn tags(&self) -> (res: Vec<String>)
        ensures
            lists_tags(self.listing(), views(res@)),
    {
        let ghost s = self.listing();
        let n = self.repos.len();
        let mut out: Vec<String> = Vec::new();
        let mut i: usize = 0;
        while i < n
            invariant
                n == self.repos@.len(),
                s == repo_views(self.repos@),
                i <= n,
                strictly_sorted(views(out@)),
                forall|t: Seq<char>|
                    #[trigger] views(out@).contains(t) <==> tag_in_prefix(s, i as int, t),
            decreases n - i,
        {
            let tags = &self.repos[i].entry.tags;
            let m = tags.len();
            let mut j: usize = 0;
            while j < m
                invariant
                    n == self.repos@.len(),
                    s == repo_views(self.repos@),
                    i < n,
                    m == tags@.len(),
                    views(tags@) == s[i as int].entry.tags,
                    j <= m,
                    strictly_sorted(views(out@)),
                    forall|t: Seq<char>|
                        #[trigger] views(out@).contains(t) <==> (tag_in_prefix(s, i as int, t)
                            || tag_in_first(s[i as int].entry.tags, j as int, t)),
                decreases m - j,
            {
                let ghost before = views(out@);
                insert_text(&mut out, &tags[j]);
                proof {
                    assert(s[i as int].entry.tags[j as int] == tags@[j as int]@);
                    assert forall|t: Seq<char>| #[trigger]
                        views(out@).contains(t) <==> (tag_in_prefix(s, i as int, t)
                            || tag_in_first(s[i as int].entry.tags, j + 1, t)) by {
                        lemma_tag_in_first_step(s[i as int].entry.tags, j as int, t);
                        assert(before.contains(t) <==> (tag_in_prefix(s, i as int, t)
                            || tag_in_first(s[i as int].entry.tags, j as int, t)));
                    }
                }
                j += 1;
            }
            proof {
                assert forall|t: Seq<char>| #[trigger]
                    views(out@).contains(t) <==> tag_in_prefix(s, i + 1, t) by {
                    lemma_tag_in_prefix_step(s, i as int, t);
                }
            }
            i += 1;
        }
        out
    }

    /// Look up a single repo by alias.
    pub fn get(&self, alias: &str) -> (res: Result<Repo, Error>)
        ensures
            match res {
                Ok(r) => self@.contains_key(alias@) && r@ == (RepoV {
                    alias: alias@,
                    entry: self@[alias@],
                }),
                Err(Error::UnknownAlias(a)) => !self@.contains_key(alias@) && a@ == alias@,
                Err(_) => false,
            },
    {
        proof {
            use_type_invariant(self);
        }
        let ghost s = self.listing();
        let i = position(&self.repos, alias);
        if i < self.repos.len() && same_text(self.repos[i].alias.as_str(), alias) {
            proof {
                lemma_filed_at(s, i as int);
            }
            let entry = self.repos[i].entry.copy();
            Ok(Repo { alias: owned(alias), entry })
        } else {
            proof {
                assert forall|k: int| 0 <= k < s.len() implies (#[trigger] s[k]).alias
                    != alias@ by {
                    assert(s[k] == self.repos@[k]@);
                    if k < i {
                        lemma_text_lt_irreflexive(alias@);
                    } else if k > i {
                        assert(s[i as int] == self.repos@[i as int]@);
                        assert(text_lt(s[i as int].alias, s[k].alias));
                        lemma_text_lt_total(s[i as int].alias, alias@);
                    }
                }
                lemma_absent(s, alias@);
            }
            Err(Error::UnknownAlias(owned(alias)))
        }
    }

    /// Every repo carrying `tag`; a tag that matches nothing is an error, so a
    /// typo fails loudly instead of quietly doing nothing.
    pub fn by_tag(&self, tag: &str) -> (res: Result<Vec<Repo>, Error>)
        ensures
            match res {
                Ok(v) => repo_views(v@) == tagged(self.listing(), tag@) && v@.len() > 0,
                Err(Error::UnknownTag { tag: t, known }) => tagged(self.listing(), tag@).len()
                    == 0 && t@ == tag@ && lists_tags(self.listing(), views(known@)),
                Err(_) => false,
            },
    {
        let ghost s = self.listing();
        let n = self.repos.len();
        let mut out: Vec<Repo> = Vec::new();
        let mut i: usize = 0;
        while i < n
            invariant
                n == self.repos@.len(),
                s == repo_views(self.repos@),
                i <= n,
                repo_views(out@) == tagged(s.take(i as int), tag@),
            decreases n - i,
        {
            let keep = carries_tag(&self.repos[i].entry, tag);
            let ghost before = repo_views(out@);
            proof {
                assert(s.take(i + 1).drop_last() =~= s.take(i as int));
                assert(s.take(i + 1).last() == self.repos@[i as int]@);
                reveal_with_fuel(Seq::filter, 1);
            }
            if keep {
                out.push(self.repos[i].copy());
                assert(repo_views(out@) =~= before.push(self.repos@[i as int]@));
            }
            i += 1;
        }
        assert(s.take(n as int) =~= s);
        if out.len() == 0 {
            return Err(Error::UnknownTag { tag: owned(tag), known: self.tags() });
        }
        Ok(out)
    }

    /// Resolve a target that is either an alias or an `@tag` group: what
    /// `grit <target> <args...>` dispatches on.
    pub fn resolve_target(&self, target: &str) -> (res: Result<Vec<Repo>, Error>)
        ensures
            is_group(target@) ==> {
                let tag = target@.drop_first();
                match res {
                    Ok(v) => repo_views(v@) == tagged(self.listing(), tag) && v@.len() > 0,
                    Err(Error::UnknownTag { tag: t, known }) => tagged(self.listing(), tag).len()
                        == 0 && t@ == tag && lists_tags(self.listing(), views(known@)),
                    Err(_) => false,
                }
            },
            !is_group(target@) ==> match res {
                Ok(v) => self@.contains_key(target@) && repo_views(v@) == seq![
                    RepoV { alias: target@, entry: self@[target@] },
                ],
                Err(Error::UnknownAlias(a)) => !self@.contains_key(target@) && a@ == target@,
                Err(_) => false,
            },
    {
        let c = chars_of(target);
        if c.len() > 0 && c[0] == GROUP_SIGIL {
            let rest = string_of_range(&c, 1, c.len());
            assert(rest@ =~= target@.drop_first());
            self.by_tag(rest.as_str())
        } else {
            match self.get(target) {
                Ok(r) => {
                    let v = vec![r];
                    assert(repo_views(v@) =~= seq![v@[0]@]);
                    Ok(v)
                },
                Err(e) => Err(e),
            }
        }
    }

    /// Narrow the registry down for a listing: with no aliases and no tag,
    /// everything; named aliases in the order named; a tag keeps only the
    /// repos carrying it, and must be in use.
    pub fn select(&self, aliases: &Vec<String>, tag: Option<&str>) -> (res: Result<
        Vec<Repo>,
        Error,
    >)
        ensures
            ({
                let names = views(aliases@);
                let base = if names.len() == 0 {
                    self.listing()
                } else {
                    picked(self@, names)
                };
                let unknown = exists|k: int| first_unknown(self@, names, k);
                match res {
                    Ok(v) => !unknown && match tag {
                        None => repo_views(v@) == base,
                        Some(t) => tagged(self.listing(), t@).len() > 0 && repo_views(v@)
                            == tagged(base, t@),
                    },
                    Err(Error::UnknownAlias(a)) => exists|k: int|
                        first_unknown(self@, names, k) && names[k] == a@,
                    Err(Error::UnknownTag { tag: t, known }) => !unknown && tag is Some && t@
                        == tag.unwrap()@ && tagged(self.listing(), t@).len() == 0 && lists_tags(
                        self.listing(),
                        views(known@),
                    ),
                    Err(_) => false,
                }
            }),
    {
        let ghost names = views(aliases@);
        let repos: Vec<Repo> = if aliases.len() == 0 {
            self.all()
        } else {
            let n = aliases.len();
            let mut picked_so_far: Vec<Repo> = Vec::new();
            let mut i: usize = 0;
            while i < n
                invariant
                    n == aliases@.len(),
                    names == views(aliases@),
                    i <= n,
                    forall|j: int| 0 <= j < i ==> self@.contains_key(#[trigger] names[j]),
                    repo_views(picked_so_far@) == picked(self@, names.take(i as int)),
                decreases n - i,
            {
                match self.get(aliases[i].as_str()) {
                    Ok(r) => {
                        let ghost before = repo_views(picked_so_far@);
                        let ghost rv = r@;
                        picked_so_far.push(r);
                        assert(names[i as int] == aliases@[i as int]@);
                        assert(names.take(i + 1) =~= names.take(i as int).push(names[i as int]));
                        assert(repo_views(picked_so_far@) =~= before.push(rv));
                        assert(repo_views(picked_so_far@) =~= picked(
                            self@,
                            names.take(i + 1),
                        ));
                    },
                    Err(e) => {
                        assert(first_unknown(self@, names, i as int));
                        return Err(e);
                    },
                }
                i += 1;
            }
            assert(names.take(n as int) =~= names);
            picked_so_far
        };
        proof {
            if exists|k: int| first_unknown(self@, names, k) {
                let k = choose|k: int| first_unknown(self@, names, k);
                assert(self@.contains_key(names[k]));
            }
        }
        match tag {
            None => Ok(repos),
            Some(t) => {
                match self.by_tag(t) {
                    Err(e) => {
                        return Err(e);
                    },
                    Ok(_) => {},
                }
                let ghost base = repo_views(repos@);
                let n = repos.len();
                let mut out: Vec<Repo> = Vec::new();
                let mut i: usize = 0;
                while i < n
                    invariant
                        n == repos@.len(),
                        base == repo_views(repos@),
                        i <= n,
                        repo_views(out@) == tagged(base.take(i as int), t@),
                    decreases n - i,
                {
                    let keep = carries_tag(&repos[i].entry, t);
                    let ghost before = repo_views(out@);
                    proof {
                        assert(base.take(i + 1).drop_last() =~= base.take(i as int));
                        assert(base.take(i + 1).last() == repos@[i as int]@);
                        reveal_with_fuel(Seq::filter, 1);
                    }
                    if keep {
                        out.push(repos[i].copy());
                        assert(repo_views(out@) =~= before.push(repos@[i as int]@));
                    }
                    i += 1;
                }
                assert(base.take(n as int) =~= base);
                Ok(out)
            },
        }
    }

    /// File `entry` under `alias`, replacing what was filed there; gives back
    /// the entry it replaced.
    pub fn insert(&mut self, alias: String, entry: RepoEntry) -> (res: Option<RepoEntry>)
        ensures
            final(self)@ == old(self)@.insert(alias@, entry@),
            sorted(final(self).listing()),
            final(self).location() == old(self).location(),
            final(self).format() == old(self).format(),
            match res {
                Some(e) => old(self)@.contains_key(alias@) && e@ == old(self)@[alias@],
                None => !old(self)@.contains_key(alias@),
            },
    {
        proof {
            use_type_invariant(&*self);
        }
        let ghost s = self.listing();
        let mut repos: Vec<Repo> = Vec::new();
        std::mem::swap(&mut repos, &mut self.repos);
        assert(repo_views(repos@) == s);
        let i = position(&repos, alias.as_str());
        let r = Repo { alias, entry };
        let ghost rv = r@;
        proof {
            assert forall|k: int| 0 <= k < i implies (#[trigger] s[k]).alias != rv.alias by {
                assert(s[k] == repos@[k]@);
                lemma_text_lt_irreflexive(rv.alias);
            }
        }
        if i < repos.len() && same_text(repos[i].alias.as_str(), r.alias.as_str()) {
            let old_entry = repos.remove(i);
            repos.insert(i, r);
            proof {
                assert(repo_views(repos@) =~= s.update(i as int, rv));
                lemma_contents_update(s, i as int, rv);
                lemma_filed_at(s, i as int);
                assert forall|a: int, b: int| 0 <= a < b < repos@.len() implies text_lt(
                    #[trigger] repo_views(repos@)[a].alias,
                    #[trigger] repo_views(repos@)[b].alias,
                ) by {
                    assert(s[a].alias == repo_views(repos@)[a].alias);
                    assert(s[b].alias == repo_views(repos@)[b].alias);
                }
            }
            self.repos = repos;
            Some(old_entry.entry)
        } else {
            proof {
                assert forall|k: int| i <= k < s.len() implies text_lt(
                    rv.alias,
                    (#[trigger] s[k]).alias,
                ) by {
                    assert(s[k] == repos@[k]@);
                    if k > i {
                        assert(s[i as int] == repos@[i as int]@);
                        assert(text_lt(s[i as int].alias, s[k].alias));
                        if s[k].alias == rv.alias {
                            lemma_text_lt_total(s[i as int].alias, rv.alias);
                        }
                    }
                    lemma_text_lt_total(rv.alias, s[k].alias);
                }
                assert forall|k: int| 0 <= k < s.len() implies (#[trigger] s[k]).alias
                    != rv.alias by {
                    if k >= i {
                        assert(text_lt(rv.alias, s[k].alias));
                        lemma_text_lt_irreflexive(rv.alias);
                    } else {
                        assert(s[k] == repos@[k]@);
                        lemma_text_lt_irreflexive(rv.alias);
                    }
                }
                lemma_absent(s, rv.alias);
            }
            repos.insert(i, r);
            proof {
                let nv = repo_views(repos@);
                assert(nv =~= s.insert(i as int, rv));
                lemma_contents_insert(s, i as int, rv);
                assert forall|a: int, b: int| 0 <= a < b < nv.len() implies text_lt(
                    #[trigger] nv[a].alias,
                    #[trigger] nv[b].alias,
                ) by {
                    if a < i && b > i {
                        assert(s[a] == repos@[a]@);
                        lemma_text_lt_transitive(nv[a].alias, rv.alias, nv[b].alias);
                    } else if a < i && b == i {
                        assert(s[a] == repos@[a]@);
                    }
                }
            }
            self.repos = repos;
            None
        }
    }

    /// Unregister `alias`, giving back what was filed under it.
    pub fn remove(&mut self, alias: &str) -> (res: Result<RepoEntry, Error>)
        ensures
            final(self)@ == old(self)@.remove(alias@),
            sorted(final(self).listing()),
            final(self).location() == old(self).location(),
            final(self).format() == old(self).format(),
            match res {
                Ok(e) => old(self)@.contains_key(alias@) && e@ == old(self)@[alias@],
                Err(Error::UnknownAlias(a)) => !old(self)@.contains_key(alias@) && a@ == alias@,
                Err(_) => false,
            },
    {
        proof {
            use_type_invariant(&*self);
        }
        let ghost s = self.listing();
        let found = self.get(alias);
        match found {
            Err(e) => {
                assert(old(self)@.remove(alias@) =~= old(self)@);
                Err(e)
            },
            Ok(_) => {
                let mut repos: Vec<Repo> = Vec::new();
                std::mem::swap(&mut repos, &mut self.repos);
                let i = position(&repos, alias);
                proof {
                    lemma_filed_only(s, alias@);
                    let k = choose|k: int| 0 <= k < s.len() && (#[trigger] s[k]).alias == alias@;
                    assert(s[k] == repos@[k]@);
                    if k < i {
                        lemma_text_lt_irreflexive(alias@);
                    }
                    if k > i {
                        assert(s[i as int] == repos@[i as int]@);
                        assert(text_lt(s[i as int].alias, s[k].alias));
                    }
                    assert(k == i);
                    lemma_filed_at(s, i as int);
                    lemma_contents_remove(s, i as int);
                }
                let gone = repos.remove(i);
                proof {
                    let nv = repo_views(repos@);
                    assert(nv =~= s.remove(i as int));
                    assert forall|a: int, b: int| 0 <= a < b < nv.len() implies text_lt(
                        #[trigger] nv[a].alias,
                        #[trigger] nv[b].alias,
                    ) by {
                        if b < i {
                            assert(nv[a] == s[a] && nv[b] == s[b]);
                        } else if a < i {
                            assert(nv[a] == s[a] && nv[b] == s[b + 1]);
                        } else {
                            assert(nv[a] == s[a + 1] && nv[b] == s[b + 1]);
                        }
                    }
                }
                self.repos = repos;
                Ok(gone.entry)
            },
        }
    }

    /// Refuse an alias that is taken, unless the caller passed `--force`.
    pub fn check_available(&self, alias: &str, force: bool) -> (res: Result<(), Error>)
        ensures
            match res {
                Ok(()) => force || !self@.contains_key(alias@),
                Err(Error::DuplicateAlias { alias: a, existing }) => !force && self@.contains_key(
                    alias@,
                ) && a@ == alias@ && existing@ == self@[alias@].path,
                Err(_) => false,
            },
    {
        if force {
            return Ok(());
        }
        match self.get(alias) {
            Ok(r) => Err(Error::DuplicateAlias { alias: owned(alias), existing: r.entry.path }),
            Err(_) => Ok(()),
        }
    }
}

impl View for Registry {
    type V = Map<Seq<char>, RepoEntryV>;

    /// What is filed under each alias.
    open spec fn view(&self) -> Map<Seq<char>, RepoEntryV> {
        contents(self.listing())
    }
}

} // verus!
