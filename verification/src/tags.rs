//! The tag catalogue: version tags discovered in a repository, grouped by
//! target commit and ranked highest-first.

use vstd::prelude::*;

use crate::config::Config;
use crate::order::{
    lemma_version_lt_asym, lemma_version_lt_irrefl, lemma_version_lt_trans, spec_version_lt,
};
use crate::parse::spec_parse;
use crate::version::{Version, VersionView};

verus! {

/// A tag reference read from a repository: the short tag name and the
/// commit it ultimately targets (annotated tags already peeled), both as
/// plain text.
#[derive(Debug)]
pub struct TagRef {
    pub name: String,
    pub target: String,
}

/// The mathematical model of a [`TagRef`].
pub ghost struct TagRefView {
    pub name: Seq<char>,
    pub target: Seq<char>,
}

impl View for TagRef {
    type V = TagRefView;

    open spec fn view(&self) -> TagRefView {
        TagRefView { name: self.name@, target: self.target@ }
    }
}

impl DeepView for TagRef {
    type V = TagRefView;

    open spec fn deep_view(&self) -> TagRefView {
        self.view()
    }
}

/// A version tag: the parsed version and the reference name it came from.
#[derive(Debug)]
pub struct VersionTag {
    pub version: Version,
    pub tag_name: String,
}

/// The mathematical model of a [`VersionTag`].
pub ghost struct VersionTagView {
    pub version: VersionView,
    pub tag_name: Seq<char>,
}

impl View for VersionTag {
    type V = VersionTagView;

    open spec fn view(&self) -> VersionTagView {
        VersionTagView { version: self.version@, tag_name: self.tag_name@ }
    }
}

impl DeepView for VersionTag {
    type V = VersionTagView;

    open spec fn deep_view(&self) -> VersionTagView {
        self.view()
    }
}

impl Clone for VersionTag {
    /// Copies both fields; the copy has the same view.
    fn clone(&self) -> (r: Self)
        ensures
            r@ == self@,
    {
        VersionTag {
            version: self.version.clone(),
            tag_name: self.tag_name.clone(),
        }
    }
}

/// The name's version text after removing the configured prefix: the whole
/// name when the prefix is empty, the remainder when the name starts with
/// the prefix, and nothing otherwise (such a tag is silently skipped).
pub open spec fn spec_strip_prefix(name: Seq<char>, prefix: Seq<char>) -> Option<Seq<char>> {
    if prefix.len() == 0 {
        Some(name)
    } else if name.len() >= prefix.len() && name.take(prefix.len() as int) == prefix {
        Some(name.skip(prefix.len() as int))
    } else {
        None
    }
}

/// The version a tag name denotes under a prefix, if any.
pub open spec fn spec_tag_version(name: Seq<char>, prefix: Seq<char>) -> Option<VersionView> {
    match spec_strip_prefix(name, prefix) {
        Some(rest) => spec_parse(rest),
        None => None,
    }
}

/// The versions of the tags that target commit `c`, in reference order.
pub open spec fn spec_versions_at(
    tags: Seq<TagRefView>,
    prefix: Seq<char>,
    c: Seq<char>,
) -> Seq<VersionView>
    decreases tags.len(),
{
    if tags.len() == 0 {
        Seq::empty()
    } else {
        let rest = spec_versions_at(tags.drop_last(), prefix, c);
        let t = tags.last();
        if t.target == c {
            match spec_tag_version(t.name, prefix) {
                Some(v) => rest.push(v),
                None => rest,
            }
        } else {
            rest
        }
    }
}

/// The tag names that matched the prefix but did not parse as versions, in
/// reference order.
pub open spec fn spec_invalid_names(tags: Seq<TagRefView>, prefix: Seq<char>) -> Seq<Seq<char>>
    decreases tags.len(),
{
    if tags.len() == 0 {
        Seq::empty()
    } else {
        let rest = spec_invalid_names(tags.drop_last(), prefix);
        let t = tags.last();
        match spec_strip_prefix(t.name, prefix) {
            Some(vtext) => if spec_parse(vtext) is None {
                rest.push(t.name)
            } else {
                rest
            },
            None => rest,
        }
    }
}

/// The highest version of a non-empty list; among versions of equal
/// precedence, the earliest.
pub open spec fn spec_best(vs: Seq<VersionView>) -> VersionView
    recommends
        vs.len() > 0,
    decreases vs.len(),
{
    if vs.len() <= 1 {
        vs[0]
    } else {
        let b = spec_best(vs.drop_last());
        if spec_version_lt(b, vs.last()) {
            vs.last()
        } else {
            b
        }
    }
}

/// Non-increasing by precedence.
pub open spec fn sorted_desc(vs: Seq<VersionView>) -> bool {
    forall|j: int, k: int| 0 <= j < k < vs.len() ==> !spec_version_lt(#[trigger] vs[j], #[trigger] vs[k])
}

/// Every version of the list is well-formed.
pub open spec fn all_wf(vs: Seq<VersionView>) -> bool {
    forall|i: int| 0 <= i < vs.len() ==> (#[trigger] vs[i]).wf()
}

/// The versions carried by a list of version tags.
pub open spec fn tag_versions(ts: Seq<VersionTagView>) -> Seq<VersionView> {
    ts.map_values(|t: VersionTagView| t.version)
}

/// A stored version tag is genuine: some reference of the list has this
/// very name, targets this commit, and denotes this version.
pub open spec fn spec_genuine_tag(
    tags: Seq<TagRefView>,
    prefix: Seq<char>,
    c: Seq<char>,
    t: VersionTagView,
) -> bool {
    exists|k: int|
        0 <= k < tags.len() && (#[trigger] tags[k]).name == t.tag_name && tags[k].target == c
            && spec_tag_version(t.tag_name, prefix) == Some(t.version)
}

/// One commit's slot in the catalogue: the commit and its version tags,
/// highest first.
#[derive(Debug)]
pub struct CatalogueEntry {
    pub commit: String,
    pub tags: Vec<VersionTag>,
}

/// The catalogue of version tags, grouped by target commit.  Built once per
/// calculation and read-only afterwards.
#[derive(Debug)]
pub struct TagCatalogue {
    pub entries: Vec<CatalogueEntry>,
}

impl TagCatalogue {
    /// The catalogue faithfully represents the version tags of `tags` under
    /// `prefix`: one entry per tagged commit, each entry holding exactly
    /// that commit's accepted versions, sorted descending, the best first.
    pub open spec fn consistent_with(self, tags: Seq<TagRefView>, prefix: Seq<char>) -> bool {
        &&& forall|i: int, j: int|
            0 <= i < j < self.entries@.len() ==> (#[trigger] self.entries@[i]).commit@ != (
            #[trigger] self.entries@[j]).commit@
        &&& forall|i: int|
            0 <= i < self.entries@.len() ==> {
                let e = #[trigger] self.entries@[i];
                let vs = tag_versions(e.tags.deep_view());
                let accepted = spec_versions_at(tags, prefix, e.commit@);
                &&& accepted.len() > 0
                &&& vs.len() > 0
                &&& vs.to_multiset() == accepted.to_multiset()
                &&& sorted_desc(vs)
                &&& vs[0] == spec_best(accepted)
                &&& all_wf(vs)
                &&& forall|j: int|
                    0 <= j < e.tags.deep_view().len() ==> spec_genuine_tag(
                        tags,
                        prefix,
                        e.commit@,
                        #[trigger] e.tags.deep_view()[j],
                    )
            }
        &&& forall|c: Seq<char>|
            spec_versions_at(tags, prefix, c).len() > 0 ==> exists|i: int|
                0 <= i < self.entries@.len() && (#[trigger] self.entries@[i]).commit@ == c
    }

    /// The index of the entry for a commit, if the commit carries tags.
    pub fn find_entry(&self, commit: &String) -> (r: Option<usize>)
        ensures
            match r {
                Some(i) => i < self.entries@.len() && self.entries@[i as int].commit@ == commit@,
                None => forall|i: int|
                    0 <= i < self.entries@.len() ==> (#[trigger] self.entries@[i]).commit@
                        != commit@,
            },
    {
        let mut i: usize = 0;
        while i < self.entries.len()
            invariant
                i <= self.entries@.len(),
                forall|j: int|
                    0 <= j < i ==> (#[trigger] self.entries@[j]).commit@ != commit@,
            decreases self.entries@.len() - i,
        {
            if self.entries[i].commit.eq(commit) {
                return Some(i);
            }
            i = i + 1;
        }
        None
    }
}

/// What a single tag reference contributes under the configured prefix.
enum TagParseOutcome {
    /// The name does not start with the prefix; the tag is not a candidate.
    Skipped,
    /// The name matched the prefix but its remainder is not a version.
    Invalid,
    /// The name denotes this version.
    Parsed(Version),
}

/// Whether `name` starts with `prefix`.
fn name_starts_with(name: &String, prefix: &String) -> (r: bool)
    ensures
        r == (name@.len() >= prefix@.len() && name@.take(prefix@.len() as int) == prefix@),
{
    let nn = name.as_str().unicode_len();
    let np = prefix.as_str().unicode_len();
    if nn < np {
        return false;
    }
    let mut j: usize = 0;
    while j < np
        invariant
            nn == name@.len(),
            np == prefix@.len(),
            np <= nn,
            j <= np,
            forall|k: int| 0 <= k < j ==> name@[k] == prefix@[k],
        decreases np - j,
    {
        if name.as_str().get_char(j) != prefix.as_str().get_char(j) {
            proof {
                assert(name@.take(np as int)[j as int] != prefix@[j as int]);
            }
            return false;
        }
        j = j + 1;
    }
    proof {
        assert(name@.take(np as int) =~= prefix@);
    }
    true
}

/// Classify one tag reference: skipped by the prefix, unparseable, or a
/// version.
fn tag_version(name: &String, prefix: &String) -> (r: TagParseOutcome)
    ensures
        match r {
            TagParseOutcome::Skipped => spec_strip_prefix(name@, prefix@) is None,
            TagParseOutcome::Invalid => spec_strip_prefix(name@, prefix@) matches Some(rest)
                && spec_parse(rest) is None,
            TagParseOutcome::Parsed(v) => spec_strip_prefix(name@, prefix@) matches Some(rest)
                && spec_parse(rest) == Some(v@) && v@.wf(),
        },
{
    let np = prefix.as_str().unicode_len();
    if np == 0 {
        match Version::parse(name.as_str()) {
            Some(v) => {
                proof {
                    crate::parse::lemma_spec_parse_wf(name@);
                }
                TagParseOutcome::Parsed(v)
            },
            None => TagParseOutcome::Invalid,
        }
    } else if name_starts_with(name, prefix) {
        let nn = name.as_str().unicode_len();
        let rest = name.as_str().substring_char(np, nn);
        proof {
            assert(rest@ =~= name@.skip(prefix@.len() as int));
        }
        match Version::parse(rest) {
            Some(v) => {
                proof {
                    crate::parse::lemma_spec_parse_wf(rest@);
                }
                TagParseOutcome::Parsed(v)
            },
            None => TagParseOutcome::Invalid,
        }
    } else {
        TagParseOutcome::Skipped
    }
}

/// The version a tag name denotes under a prefix, if any.
pub fn tag_version_of(name: &String, prefix: &String) -> (r: Option<Version>)
    ensures
        match r {
            Some(v) => spec_tag_version(name@, prefix@) == Some(v@) && v@.wf(),
            None => spec_tag_version(name@, prefix@) is None,
        },
{
    match tag_version(name, prefix) {
        TagParseOutcome::Parsed(v) => Some(v),
        TagParseOutcome::Invalid => None,
        TagParseOutcome::Skipped => None,
    }
}

/// The position of the first entry that the tag strictly exceeds; the end
/// when there is none.
fn find_insert_pos(list: &Vec<VersionTag>, tag: &VersionTag) -> (p: usize)
    requires
        all_wf(tag_versions(list.deep_view())),
        tag@.version.wf(),
    ensures
        p <= list@.len(),
        forall|j: int|
            0 <= j < p ==> !spec_version_lt(
                #[trigger] tag_versions(list.deep_view())[j],
                tag@.version,
            ),
        p < list@.len() ==> spec_version_lt(tag_versions(list.deep_view())[p as int], tag@.version),
{
    let ghost vs = tag_versions(list.deep_view());
    let n = list.len();
    let mut p: usize = 0;
    while p < n
        invariant
            n == list@.len(),
            vs == tag_versions(list.deep_view()),
            all_wf(vs),
            tag@.version.wf(),
            p <= n,
            forall|j: int| 0 <= j < p ==> !spec_version_lt(#[trigger] vs[j], tag@.version),
        decreases n - p,
    {
        proof {
            assert(vs[p as int] == list@[p as int]@.version);
        }
        if list[p].version.precedes(&tag.version) {
            return p;
        }
        p = p + 1;
    }
    p
}

/// Insert a tag into a descending list, after everything it does not exceed.
/// The list stays sorted; the head moves exactly when the newcomer exceeds
/// it.
fn insert_sorted(list: &mut Vec<VersionTag>, tag: VersionTag)
    requires
        old(list)@.len() > 0,
        sorted_desc(tag_versions(old(list).deep_view())),
        all_wf(tag_versions(old(list).deep_view())),
        tag@.version.wf(),
    ensures
        ({
            let vs0 = tag_versions(old(list).deep_view());
            let vs1 = tag_versions(final(list).deep_view());
            &&& vs1.len() == vs0.len() + 1
            &&& vs1.to_multiset() == vs0.push(tag@.version).to_multiset()
            &&& sorted_desc(vs1)
            &&& all_wf(vs1)
            &&& vs1[0] == if spec_version_lt(vs0[0], tag@.version) {
                tag@.version
            } else {
                vs0[0]
            }
            &&& forall|j: int|
                0 <= j < final(list).deep_view().len() ==> #[trigger] final(list).deep_view()[j]
                    == tag@ || old(list).deep_view().contains(final(list).deep_view()[j])
        }),
{
    let ghost vs0 = tag_versions(old(list).deep_view());
    let ghost tagv = tag@.version;
    let p = find_insert_pos(list, &tag);
    list.insert(p, tag);
    proof {
        let vs1 = tag_versions(list.deep_view());
        let lv0 = old(list).deep_view();
        let lv1 = list.deep_view();
        assert(lv1 =~= lv0.insert(p as int, tag@)) by {
            lv0.insert_ensures(p as int, tag@);
            assert(forall|k: int|
                0 <= k < lv1.len() ==> lv1[k] == list@[k]@);
            assert(forall|k: int|
                0 <= k < lv0.len() ==> lv0[k] == old(list)@[k]@);
        }
        lv0.insert_ensures(p as int, tag@);
        assert(vs1.len() == vs0.len() + 1);
        assert(vs1[p as int] == tagv);
        assert(forall|j: int| 0 <= j < p ==> vs1[j] == vs0[j]);
        assert(forall|j: int| p < j < vs1.len() ==> vs1[j] == vs0[j - 1]);

        // the list stays sorted
        assert forall|j: int, k: int| 0 <= j < k < vs1.len() implies !spec_version_lt(
            #[trigger] vs1[j],
            #[trigger] vs1[k],
        ) by {
            if j < p && k == p {
            } else if j == p && k > p {
                if spec_version_lt(tagv, vs0[k - 1]) {
                    if p < k - 1 {
                        lemma_version_lt_trans(vs0[p as int], tagv, vs0[k - 1]);
                    } else {
                        lemma_version_lt_asym(vs0[p as int], tagv);
                    }
                }
            }
        }

        // same contents, one more tag
        assert(vs1 =~= vs0.take(p as int) + seq![tagv] + vs0.skip(p as int));
        assert(vs0.push(tagv) =~= (vs0.take(p as int) + vs0.skip(p as int)) + seq![tagv]);
        assert(vs0 =~= vs0.take(p as int) + vs0.skip(p as int));
        vstd::seq_lib::lemma_multiset_commutative(vs0.take(p as int) + seq![tagv], vs0.skip(p as int));
        vstd::seq_lib::lemma_multiset_commutative(vs0.take(p as int), seq![tagv]);
        vstd::seq_lib::lemma_multiset_commutative(vs0.take(p as int) + vs0.skip(p as int), seq![tagv]);
        vstd::seq_lib::lemma_multiset_commutative(vs0.take(p as int), vs0.skip(p as int));
        assert(vs1.to_multiset() =~= vs0.push(tagv).to_multiset());

        // the head
        if spec_version_lt(vs0[0], tagv) {
            assert(p == 0);
        } else {
            assert(p > 0);
            assert(vs1[0] == vs0[0]);
        }

        // every element is the newcomer or one of the old tags
        assert forall|j: int|
            0 <= j < lv1.len() implies #[trigger] lv1[j] == tag@ || lv0.contains(lv1[j]) by {
            if j < p {
                assert(lv1[j] == lv0[j]);
            } else if j > p {
                assert(lv1[j] == lv0[j - 1]);
            }
        }
    }
}

/// A tag genuine under a reference list stays genuine when the list grows.
proof fn lemma_genuine_monotone(
    tprev: Seq<TagRefView>,
    t: TagRefView,
    prefix: Seq<char>,
    c: Seq<char>,
    vt: VersionTagView,
)
    requires
        spec_genuine_tag(tprev, prefix, c, vt),
    ensures
        spec_genuine_tag(tprev.push(t), prefix, c, vt),
{
    let k = choose|k: int|
        0 <= k < tprev.len() && (#[trigger] tprev[k]).name == vt.tag_name && tprev[k].target == c
            && spec_tag_version(vt.tag_name, prefix) == Some(vt.version);
    assert(tprev.push(t)[k] == tprev[k]);
}

/// One more tag reference changes a commit's version list exactly when it
/// targets that commit and parses.
proof fn lemma_versions_at_step(
    tprev: Seq<TagRefView>,
    t: TagRefView,
    prefix: Seq<char>,
    c: Seq<char>,
)
    ensures
        spec_versions_at(tprev.push(t), prefix, c) == (if t.target == c {
            match spec_tag_version(t.name, prefix) {
                Some(v) => spec_versions_at(tprev, prefix, c).push(v),
                None => spec_versions_at(tprev, prefix, c),
            }
        } else {
            spec_versions_at(tprev, prefix, c)
        }),
{
    assert(tprev.push(t).drop_last() =~= tprev);
    assert(tprev.push(t).last() == t);
}

/// One more tag reference adds to the invalid names exactly when it matches
/// the prefix but does not parse.
proof fn lemma_invalid_step(tprev: Seq<TagRefView>, t: TagRefView, prefix: Seq<char>)
    ensures
        spec_invalid_names(tprev.push(t), prefix) == (match spec_strip_prefix(t.name, prefix) {
            Some(vtext) => if spec_parse(vtext) is None {
                spec_invalid_names(tprev, prefix).push(t.name)
            } else {
                spec_invalid_names(tprev, prefix)
            },
            None => spec_invalid_names(tprev, prefix),
        }),
{
    assert(tprev.push(t).drop_last() =~= tprev);
    assert(tprev.push(t).last() == t);
}

/// Build the catalogue: filter tag references by the prefix, parse the
/// survivors, group them by target commit with each group ranked highest
/// first, and report the names that matched the prefix but did not parse.
pub fn parse_tags(tags: &Vec<TagRef>, config: &Config) -> (r: (TagCatalogue, Vec<String>))
    ensures
        r.0.consistent_with(tags.deep_view(), config@.tag_prefix),
        r.1.deep_view() == spec_invalid_names(tags.deep_view(), config@.tag_prefix),
{
    let ghost tv = tags.deep_view();
    let ghost prefix = config@.tag_prefix;
    let mut cat = TagCatalogue { entries: Vec::new() };
    let mut invalid: Vec<String> = Vec::new();
    proof {
        assert(tv.take(0) =~= Seq::<TagRefView>::empty());
        assert(invalid.deep_view() =~= spec_invalid_names(tv.take(0), prefix));
    }
    let mut i: usize = 0;
    while i < tags.len()
        invariant
            tv == tags.deep_view(),
            prefix == config@.tag_prefix,
            tv.len() == tags@.len(),
            i <= tags@.len(),
            cat.consistent_with(tv.take(i as int), prefix),
            invalid.deep_view() == spec_invalid_names(tv.take(i as int), prefix),
        decreases tags@.len() - i,
    {
        let ghost tprev = tv.take(i as int);
        let ghost tcur = tv.take(i + 1);
        let ghost t = tv[i as int];
        proof {
            assert(tcur =~= tprev.push(t));
            assert(t == tags@[i as int]@);
            lemma_invalid_step(tprev, t, prefix);
        }
        match tag_version(&tags[i].name, &config.tag_prefix) {
            TagParseOutcome::Skipped => {
                proof {
                    assert forall|c: Seq<char>| #[trigger]
                        spec_versions_at(tcur, prefix, c) == spec_versions_at(
                        tprev,
                        prefix,
                        c,
                    ) by {
                        lemma_versions_at_step(tprev, t, prefix, c);
                    }
                    assert forall|ii: int, j: int|
                        #![trigger cat.entries@[ii].tags.deep_view()[j]]
                        0 <= ii < cat.entries@.len() && 0 <= j
                            < cat.entries@[ii].tags.deep_view().len() implies spec_genuine_tag(
                        tcur,
                        prefix,
                        cat.entries@[ii].commit@,
                        cat.entries@[ii].tags.deep_view()[j],
                    ) by {
                        lemma_genuine_monotone(
                            tprev,
                            t,
                            prefix,
                            cat.entries@[ii].commit@,
                            cat.entries@[ii].tags.deep_view()[j],
                        );
                    }
                }
            },
            TagParseOutcome::Invalid => {
                invalid.push(tags[i].name.clone());
                proof {
                    assert forall|c: Seq<char>| #[trigger]
                        spec_versions_at(tcur, prefix, c) == spec_versions_at(
                        tprev,
                        prefix,
                        c,
                    ) by {
                        lemma_versions_at_step(tprev, t, prefix, c);
                    }
                    assert(invalid.deep_view() =~= spec_invalid_names(tcur, prefix));
                    assert forall|ii: int, j: int|
                        #![trigger cat.entries@[ii].tags.deep_view()[j]]
                        0 <= ii < cat.entries@.len() && 0 <= j
                            < cat.entries@[ii].tags.deep_view().len() implies spec_genuine_tag(
                        tcur,
                        prefix,
                        cat.entries@[ii].commit@,
                        cat.entries@[ii].tags.deep_view()[j],
                    ) by {
                        lemma_genuine_monotone(
                            tprev,
                            t,
                            prefix,
                            cat.entries@[ii].commit@,
                            cat.entries@[ii].tags.deep_view()[j],
                        );
                    }
                }
            },
            TagParseOutcome::Parsed(version) => {
                let ghost vv = version@;
                let vtag = VersionTag { version, tag_name: tags[i].name.clone() };
                let ghost vt = vtag@;
                proof {
                    assert(tcur[i as int] == t);
                    assert(spec_genuine_tag(tcur, prefix, t.target, vt)) by {
                        assert((#[trigger] tcur[i as int]).name == vt.tag_name && tcur[i as int].target
                            == t.target && spec_tag_version(vt.tag_name, prefix) == Some(vt.version));
                    }
                }
                proof {
                    assert forall|c: Seq<char>|
                        c != t.target implies #[trigger] spec_versions_at(tcur, prefix, c)
                        == spec_versions_at(tprev, prefix, c) by {
                        lemma_versions_at_step(tprev, t, prefix, c);
                    }
                    lemma_versions_at_step(tprev, t, prefix, t.target);
                    assert(spec_versions_at(tcur, prefix, t.target) == spec_versions_at(
                        tprev,
                        prefix,
                        t.target,
                    ).push(vv));
                }
                match cat.find_entry(&tags[i].target) {
                    None => {
                        proof {
                            // this commit had no versions before
                            if spec_versions_at(tprev, prefix, t.target).len() > 0 {
                                let w = choose|w: int|
                                    0 <= w < cat.entries@.len() && cat.entries@[w].commit@
                                        == t.target;
                                assert(false);
                            }
                            assert(spec_versions_at(tprev, prefix, t.target) =~= Seq::<
                                VersionView,
                            >::empty());
                        }
                        let mut tlist: Vec<VersionTag> = Vec::new();
                        tlist.push(vtag);
                        let ghost old_entries = cat.entries@;
                        cat.entries.push(CatalogueEntry { commit: tags[i].target.clone(), tags: tlist });
                        proof {
                            let e = cat.entries@[cat.entries@.len() - 1];
                            let vs = tag_versions(e.tags.deep_view());
                            assert(vs =~= seq![vv]);
                            assert(vs.to_multiset() =~= spec_versions_at(
                                tcur,
                                prefix,
                                e.commit@,
                            ).to_multiset()) by {
                                broadcast use vstd::seq_lib::group_to_multiset_ensures;

                                assert(spec_versions_at(tcur, prefix, e.commit@) =~= Seq::<
                                    VersionView,
                                >::empty().push(vv));
                                assert(vs =~= Seq::<VersionView>::empty().push(vv));
                            }
                            assert(vs[0] == spec_best(spec_versions_at(tcur, prefix, e.commit@)));
                            assert forall|k: int|
                                0 <= k < cat.entries@.len() - 1 implies (#[trigger] cat.entries@[k])
                                == old_entries[k] by {}
                            assert(e.tags.deep_view() =~= seq![vt]);
                            assert forall|ii: int, j: int|
                                #![trigger cat.entries@[ii].tags.deep_view()[j]]
                                0 <= ii < cat.entries@.len() && 0 <= j
                                    < cat.entries@[ii].tags.deep_view().len() implies spec_genuine_tag(
                                tcur,
                                prefix,
                                cat.entries@[ii].commit@,
                                cat.entries@[ii].tags.deep_view()[j],
                            ) by {
                                if ii < cat.entries@.len() - 1 {
                                    lemma_genuine_monotone(
                                        tprev,
                                        t,
                                        prefix,
                                        cat.entries@[ii].commit@,
                                        cat.entries@[ii].tags.deep_view()[j],
                                    );
                                } else {
                                    assert(cat.entries@[ii].tags.deep_view()[j] == vt);
                                }
                            }
                            assert(cat.consistent_with(tcur, prefix)) by {
                                assert forall|c: Seq<char>|
                                    spec_versions_at(tcur, prefix, c).len() > 0 implies exists|w: int|
                                        0 <= w < cat.entries@.len() && (#[trigger] cat.entries@[w]).commit@
                                            == c by {
                                    if c == t.target {
                                        assert(cat.entries@[cat.entries@.len() - 1].commit@ == c);
                                    } else {
                                        let w = choose|w: int|
                                            0 <= w < old_entries.len() && (#[trigger] old_entries[w]).commit@
                                                == c;
                                        assert(cat.entries@[w].commit@ == c);
                                    }
                                }
                            }
                        }
                    },
                    Some(idx) => {
                        let ghost old_entries = cat.entries@;
                        let mut entry = cat.entries.remove(idx);
                        proof {
                            assert(entry == old_entries[idx as int]);
                            assert(entry.commit@ == t.target);
                        }
                        insert_sorted(&mut entry.tags, vtag);
                        cat.entries.push(entry);
                        proof {
                            broadcast use vstd::seq_lib::group_to_multiset_ensures;

                            let n1 = cat.entries@.len();
                            assert(n1 == old_entries.len());
                            // where each old entry now stands
                            assert forall|k: int|
                                0 <= k < n1 - 1 implies (#[trigger] cat.entries@[k]) == (if k
                                < idx { old_entries[k] } else { old_entries[k + 1] }) by {}
                            let e = cat.entries@[n1 - 1];
                            let vs1 = tag_versions(e.tags.deep_view());
                            let vs0 = tag_versions(old_entries[idx as int].tags.deep_view());
                            let acc0 = spec_versions_at(tprev, prefix, t.target);
                            let acc1 = spec_versions_at(tcur, prefix, t.target);
                            assert(e.commit@ == t.target);
                            assert(acc1 == acc0.push(vv));
                            assert(vs1.to_multiset() == acc1.to_multiset()) by {
                                assert(vs1.to_multiset() == vs0.push(vv).to_multiset());
                                assert(vs0.push(vv).to_multiset() =~= vs0.to_multiset().insert(vv));
                                assert(acc0.push(vv).to_multiset() =~= acc0.to_multiset().insert(
                                    vv,
                                ));
                            }
                            assert(vs1[0] == spec_best(acc1)) by {
                                lemma_best_push(acc0, vv);
                            }
                            assert forall|ii: int, j: int|
                                #![trigger cat.entries@[ii].tags.deep_view()[j]]
                                0 <= ii < n1 && 0 <= j
                                    < cat.entries@[ii].tags.deep_view().len() implies spec_genuine_tag(
                                tcur,
                                prefix,
                                cat.entries@[ii].commit@,
                                cat.entries@[ii].tags.deep_view()[j],
                            ) by {
                                if ii < n1 - 1 {
                                    lemma_genuine_monotone(
                                        tprev,
                                        t,
                                        prefix,
                                        cat.entries@[ii].commit@,
                                        cat.entries@[ii].tags.deep_view()[j],
                                    );
                                } else {
                                    let el = cat.entries@[ii].tags.deep_view()[j];
                                    if el != vt {
                                        let old_tags = old_entries[idx as int].tags.deep_view();
                                        assert(old_tags.contains(el));
                                        let j2 = choose|j2: int|
                                            0 <= j2 < old_tags.len() && old_tags[j2] == el;
                                        assert(spec_genuine_tag(tprev, prefix, t.target, el));
                                        lemma_genuine_monotone(tprev, t, prefix, t.target, el);
                                    }
                                }
                            }
                            assert(cat.consistent_with(tcur, prefix)) by {
                                assert forall|a: int, b: int|
                                    0 <= a < b < n1 implies (#[trigger] cat.entries@[a]).commit@
                                        != (#[trigger] cat.entries@[b]).commit@ by {}
                                assert forall|c: Seq<char>|
                                    spec_versions_at(tcur, prefix, c).len() > 0 implies exists|w: int|
                                        0 <= w < cat.entries@.len() && (#[trigger] cat.entries@[w]).commit@
                                            == c by {
                                    if c == t.target {
                                        assert(cat.entries@[n1 - 1].commit@ == c);
                                    } else {
                                        let w = choose|w: int|
                                            0 <= w < old_entries.len() && (#[trigger] old_entries[w]).commit@
                                                == c;
                                        assert(w != idx);
                                        if w < idx {
                                            assert(cat.entries@[w].commit@ == c);
                                        } else {
                                            assert(cat.entries@[w - 1].commit@ == c);
                                        }
                                    }
                                }
                            }
                        }
                    },
                }
            },
        }
        i = i + 1;
    }
    proof {
        assert(tv.take(tv.len() as int) =~= tv);
    }
    (cat, invalid)
}

/// Appending one more version moves the best exactly when the newcomer
/// strictly exceeds it.
pub proof fn lemma_best_push(vs: Seq<VersionView>, v: VersionView)
    requires
        vs.len() > 0,
    ensures
        spec_best(vs.push(v)) == if spec_version_lt(spec_best(vs), v) {
            v
        } else {
            spec_best(vs)
        },
{
    assert(vs.push(v).drop_last() =~= vs);
    assert(vs.push(v).last() == v);
}

/// The best of a non-empty list is one of its elements and no element
/// exceeds it.
pub proof fn lemma_best_is_max(vs: Seq<VersionView>)
    requires
        vs.len() > 0,
    ensures
        vs.contains(spec_best(vs)),
        forall|i: int| 0 <= i < vs.len() ==> !spec_version_lt(spec_best(vs), #[trigger] vs[i]),
    decreases vs.len(),
{
    if vs.len() == 1 {
        assert(vs[0] == spec_best(vs));
        lemma_version_lt_irrefl(vs[0]);
    } else {
        let head = vs.drop_last();
        lemma_best_is_max(head);
        assert(forall|i: int| 0 <= i < head.len() ==> head[i] == vs[i]);
        let b = spec_best(head);
        if spec_version_lt(b, vs.last()) {
            assert forall|i: int| 0 <= i < vs.len() implies !spec_version_lt(
                spec_best(vs),
                #[trigger] vs[i],
            ) by {
                if i < head.len() {
                    if spec_version_lt(vs.last(), vs[i]) {
                        lemma_version_lt_trans(b, vs.last(), vs[i]);
                    }
                } else {
                    lemma_version_lt_irrefl(vs.last());
                }
            }
            assert(vs.contains(vs.last())) by {
                assert(vs[vs.len() - 1] == vs.last());
            }
        } else {
            assert(head.contains(b));
            let k = choose|j: int| 0 <= j < head.len() && head[j] == b;
            assert(vs[k] == head[k]);
            assert(vs.contains(b));
            assert forall|i: int| 0 <= i < vs.len() implies !spec_version_lt(
                spec_best(vs),
                #[trigger] vs[i],
            ) by {
                if i == vs.len() - 1 {
                    assert(vs[i] == vs.last());
                } else {
                    assert(vs[i] == head[i]);
                }
            }
        }
    }
}

} // verus!
