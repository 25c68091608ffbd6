//! File grouping: raw file paths are grouped into named texture sets by the
//! base name of their stem, visited in sorted base-name order, and each set's
//! layer list is aligned with the configured suffix list.

use vstd::prelude::*;

use crate::filenames::{
    base_from_filename, is_png_file, spec_base_of, spec_is_png, spec_suffix_of,
    suffix_from_filename,
};
use crate::text::{lemma_lex_trichotomy, lex_lt, str_eq, str_lt, views};

verus! {

/// A texture set gathered from the input directory: the shared base name and
/// one optional file path per configured suffix, index-aligned with the
/// suffix list.
pub struct InputTextureSet {
    pub name: String,
    pub textures: Vec<Option<String>>,
}

/// One group of raw files sharing a base name, before suffix alignment.
pub struct FileGroup {
    pub name: String,
    pub members: Vec<String>,
}

/// Whether a path takes part in grouping: it names a PNG file and its stem
/// holds an underscore.
pub open spec fn is_grouped_file(f: Seq<char>) -> bool {
    spec_is_png(f) && spec_base_of(f) is Some
}

/// The base name of a grouped file.
pub open spec fn file_base(f: Seq<char>) -> Seq<char>
    recommends
        spec_base_of(f) is Some,
{
    spec_base_of(f)->0
}

/// The grouped files of `input` that share the base name `base`.
pub open spec fn group_members(input: Seq<Seq<char>>, base: Seq<char>) -> Set<Seq<char>> {
    Set::new(|f: Seq<char>| input.contains(f) && is_grouped_file(f) && file_base(f) == base)
}

/// The grouped files of `input` with base name `base` whose suffix token is
/// exactly `sfx`.
pub open spec fn slot_candidates(input: Seq<Seq<char>>, base: Seq<char>, sfx: Seq<char>) -> Set<
    Seq<char>,
> {
    Set::new(
        |f: Seq<char>|
            input.contains(f) && is_grouped_file(f) && file_base(f) == base && spec_suffix_of(f)
                == Some(sfx),
    )
}

/// The base names of the grouped files of `input`.
pub open spec fn spec_bases(input: Seq<Seq<char>>) -> Set<Seq<char>> {
    Set::new(
        |b: Seq<char>|
            exists|f: Seq<char>|
                #[trigger] input.contains(f) && is_grouped_file(f) && file_base(f) == b,
    )
}

/// `x` is the lexicographically least element of `s`.
pub open spec fn is_lex_min(s: Set<Seq<char>>, x: Seq<char>) -> bool {
    s.contains(x) && forall|y: Seq<char>| s.contains(y) ==> x == y || lex_lt(x, y)
}

/// What a gathered layer slot must hold: the lexicographically first
/// candidate path, or nothing when there is no candidate.
pub open spec fn slot_ok(
    input: Seq<Seq<char>>,
    base: Seq<char>,
    sfx: Seq<char>,
    slot: Option<Seq<char>>,
) -> bool {
    match slot {
        Some(x) => is_lex_min(slot_candidates(input, base, sfx), x),
        None => slot_candidates(input, base, sfx).is_empty(),
    }
}

/// What `collect_and_group_files_by_name` returns: every group is named by a
/// base name of the input, every base name of the input has exactly one
/// group, the names are strictly sorted, and each group holds exactly the
/// grouped files with its base name.
pub open spec fn groups_post(input: Seq<Seq<char>>, g: Seq<FileGroup>) -> bool {
    &&& forall|k: int, l: int| 0 <= k < l < g.len() ==> lex_lt(g[k].name@, g[l].name@)
    &&& forall|k: int| 0 <= k < g.len() ==> spec_bases(input).contains(#[trigger] g[k].name@)
    &&& forall|b: Seq<char>|
        spec_bases(input).contains(b) ==> exists|k: int| 0 <= k < g.len() && #[trigger] g[k].name@ == b
    &&& forall|k: int|
        0 <= k < g.len() ==> views(#[trigger] g[k].members@).to_set() == group_members(input, g[k].name@)
}

/// Groups the given file paths by the base name of their stem. Files that
/// are not PNG files, or whose stem has no underscore, are ignored. The
/// groups come back sorted by base name, each holding all the grouped files
/// that share it.
pub fn collect_and_group_files_by_name(files: &Vec<String>) -> (r: Vec<FileGroup>)
    ensures
        groups_post(views(files@), r@),
{
    let mut groups: Vec<FileGroup> = Vec::new();
    let mut t: usize = 0;
    proof {
        assert(views(files@).subrange(0, 0) =~= Seq::<Seq<char>>::empty());
        assert forall|b: Seq<char>| !spec_bases(Seq::<Seq<char>>::empty()).contains(b) by {
            if spec_bases(Seq::<Seq<char>>::empty()).contains(b) {
                let f = choose|f: Seq<char>|
                    Seq::<Seq<char>>::empty().contains(f) && is_grouped_file(f) && file_base(f)
                        == b;
            }
        }
    }
    while t < files.len()
        invariant
            t <= files@.len(),
            groups_post(views(files@).subrange(0, t as int), groups@),
        decreases files@.len() - t,
    {
        let ghost prefix: Seq<Seq<char>> = views(files@).subrange(0, t as int);
        let ghost prefix1: Seq<Seq<char>> = views(files@).subrange(0, t + 1);
        let file: &String = &files[t];
        proof {
            assert(prefix1.drop_last() =~= prefix);
            assert(prefix1.last() == file@);
            assert forall|f: Seq<char>| prefix1.contains(f) <==> (prefix.contains(f) || f
                == file@) by {
                if prefix1.contains(f) {
                    let k = choose|k: int| 0 <= k < prefix1.len() && prefix1[k] == f;
                    if k < prefix.len() {
                        assert(prefix[k] == f);
                    }
                }
                if prefix.contains(f) {
                    let k = choose|k: int| 0 <= k < prefix.len() && prefix[k] == f;
                    assert(prefix1[k] == f);
                }
                if f == file@ {
                    assert(prefix1[prefix1.len() - 1] == f);
                }
            }
        }
        let keep: bool = is_png_file(file.as_str());
        let base_opt: Option<String> = if keep {
            base_from_filename(file.as_str())
        } else {
            None
        };
        match base_opt {
            None => {
                proof {
                    assert(!is_grouped_file(file@));
                    assert forall|b: Seq<char>|
                        spec_bases(prefix1).contains(b) == spec_bases(prefix).contains(b) by {
                        if spec_bases(prefix1).contains(b) {
                            let f = choose|f: Seq<char>|
                                #[trigger] prefix1.contains(f) && is_grouped_file(f) && file_base(
                                    f,
                                ) == b;
                            assert(prefix.contains(f));
                        }
                        if spec_bases(prefix).contains(b) {
                            let f = choose|f: Seq<char>|
                                #[trigger] prefix.contains(f) && is_grouped_file(f) && file_base(f)
                                    == b;
                            assert(prefix1.contains(f));
                        }
                    }
                    assert forall|k: int| 0 <= k < groups@.len() implies views(
                        #[trigger] groups@[k].members@,
                    ).to_set() == group_members(prefix1, groups@[k].name@) by {
                        assert(group_members(prefix1, groups@[k].name@) =~= group_members(
                            prefix,
                            groups@[k].name@,
                        ));
                    }
                    assert(spec_bases(prefix1) =~= spec_bases(prefix));
                }
            }
            Some(base) => {
                proof {
                    assert(is_grouped_file(file@));
                    assert(file_base(file@) == base@);
                }
                let mut idx: usize = 0;
                while idx < groups.len() && str_lt(groups[idx].name.as_str(), base.as_str())
                    invariant
                        idx <= groups@.len(),
                        forall|k: int| 0 <= k < idx ==> lex_lt(#[trigger] groups@[k].name@, base@),
                        groups_post(prefix, groups@),
                        is_grouped_file(file@),
                        file_base(file@) == base@,
                    decreases groups@.len() - idx,
                {
                    idx = idx + 1;
                }
                let hit: bool = if idx < groups.len() {
                    str_eq(groups[idx].name.as_str(), base.as_str())
                } else {
                    false
                };
                if hit {
                    let ghost old_groups: Seq<FileGroup> = groups@;
                    let member: String = file.clone();
                    let mut entry: FileGroup = groups.remove(idx);
                    let ghost old_members: Seq<String> = entry.members@;
                    entry.members.push(member);
                    groups.insert(idx, entry);
                    proof {
                        assert(groups@.len() == old_groups.len());
                        assert forall|k: int|
                            0 <= k < groups@.len() && k != idx implies groups@[k]
                            == old_groups[k] by {
                            if k < idx {
                                assert(groups@[k] == old_groups.remove(idx as int)[k]);
                            } else {
                                assert(groups@[k] == old_groups.remove(idx as int)[k - 1]);
                            }
                        }
                        assert(views(groups@[idx as int].members@) =~= views(
                            old_groups[idx as int].members@,
                        ).push(file@));
                        lemma_groups_post_add_member(
                            prefix,
                            prefix1,
                            old_groups,
                            groups@,
                            idx as int,
                            file@,
                            base@,
                        );
                    }
                } else {
                    let ghost old_groups: Seq<FileGroup> = groups@;
                    let member: String = file.clone();
                    let mut fresh: Vec<String> = Vec::new();
                    fresh.push(member);
                    proof {
                        if idx < groups@.len() {
                            lemma_lex_trichotomy(groups@[idx as int].name@, base@);
                        }
                    }
                    groups.insert(idx, FileGroup { name: base, members: fresh });
                    proof {
                        assert(views(groups@[idx as int].members@) =~= seq![file@]);
                        lemma_groups_post_add_group(
                            prefix,
                            prefix1,
                            old_groups,
                            groups@,
                            idx as int,
                            file@,
                        );
                    }
                }
            }
        }
        t = t + 1;
    }
    proof {
        assert(views(files@).subrange(0, files@.len() as int) =~= views(files@));
    }
    groups
}

/// Appending a grouped file to the group that already carries its base name
/// preserves the grouping contract, with the file now part of the input.
proof fn lemma_groups_post_add_member(
    prefix: Seq<Seq<char>>,
    prefix1: Seq<Seq<char>>,
    old_groups: Seq<FileGroup>,
    new_groups: Seq<FileGroup>,
    idx: int,
    f: Seq<char>,
    base: Seq<char>,
)
    requires
        groups_post(prefix, old_groups),
        forall|x: Seq<char>| prefix1.contains(x) <==> (prefix.contains(x) || x == f),
        is_grouped_file(f),
        file_base(f) == base,
        0 <= idx < old_groups.len(),
        old_groups[idx].name@ == base,
        new_groups.len() == old_groups.len(),
        forall|k: int| 0 <= k < new_groups.len() && k != idx ==> new_groups[k] == old_groups[k],
        new_groups[idx].name@ == base,
        views(new_groups[idx].members@) == views(old_groups[idx].members@).push(f),
    ensures
        groups_post(prefix1, new_groups),
{
    assert(forall|k: int| 0 <= k < new_groups.len() ==> new_groups[k].name@ == old_groups[k].name@);
    assert forall|k: int| 0 <= k < new_groups.len() implies spec_bases(prefix1).contains(
        #[trigger] new_groups[k].name@,
    ) by {
        assert(spec_bases(prefix).contains(old_groups[k].name@));
        let w = choose|w: Seq<char>|
            #[trigger] prefix.contains(w) && is_grouped_file(w) && file_base(w)
                == old_groups[k].name@;
        assert(prefix1.contains(w));
    }
    assert forall|b: Seq<char>| spec_bases(prefix1).contains(b) implies exists|k: int|
        0 <= k < new_groups.len() && #[trigger] new_groups[k].name@ == b by {
        let w = choose|w: Seq<char>|
            #[trigger] prefix1.contains(w) && is_grouped_file(w) && file_base(w) == b;
        if w == f {
            assert(new_groups[idx].name@ == b);
        } else {
            assert(prefix.contains(w));
            assert(spec_bases(prefix).contains(b));
            let k = choose|k: int| 0 <= k < old_groups.len() && #[trigger] old_groups[k].name@ == b;
            assert(new_groups[k].name@ == b);
        }
    }
    assert forall|k: int| 0 <= k < new_groups.len() implies views(#[trigger] new_groups[k].members@)
        .to_set() == group_members(prefix1, new_groups[k].name@) by {
        let name = new_groups[k].name@;
        if k != idx {
            lemma_lex_trichotomy(name, base);
            assert(name != base);
            assert(group_members(prefix1, name) =~= group_members(prefix, name));
        } else {
            let old_views = views(old_groups[idx].members@);
            let new_views = views(new_groups[idx].members@);
            assert forall|x: Seq<char>| new_views.to_set().contains(x) implies group_members(
                prefix1,
                base,
            ).contains(x) by {
                let j = choose|j: int| 0 <= j < new_views.len() && new_views[j] == x;
                if j < old_views.len() {
                    assert(old_views[j] == x);
                    assert(old_views.to_set().contains(x));
                    assert(group_members(prefix, base).contains(x));
                } else {
                    assert(x == f);
                }
            }
            assert forall|x: Seq<char>| group_members(prefix1, base).contains(x) implies new_views
                .to_set().contains(x) by {
                if x == f {
                    assert(new_views[new_views.len() - 1] == f);
                } else {
                    assert(prefix.contains(x));
                    assert(group_members(prefix, base).contains(x));
                    assert(old_views.to_set().contains(x));
                    let j = choose|j: int| 0 <= j < old_views.len() && old_views[j] == x;
                    assert(new_views[j] == x);
                }
            }
            assert(new_views.to_set() =~= group_members(prefix1, base));
        }
    }
}

/// Inserting a fresh one-member group at the position its base name sorts to
/// preserves the grouping contract, with the file now part of the input.
proof fn lemma_groups_post_add_group(
    prefix: Seq<Seq<char>>,
    prefix1: Seq<Seq<char>>,
    old_groups: Seq<FileGroup>,
    new_groups: Seq<FileGroup>,
    idx: int,
    f: Seq<char>,
)
    requires
        groups_post(prefix, old_groups),
        forall|x: Seq<char>| prefix1.contains(x) <==> (prefix.contains(x) || x == f),
        is_grouped_file(f),
        0 <= idx <= old_groups.len(),
        forall|k: int| 0 <= k < idx ==> lex_lt(#[trigger] old_groups[k].name@, file_base(f)),
        idx < old_groups.len() ==> lex_lt(file_base(f), old_groups[idx].name@),
        new_groups.len() == old_groups.len() + 1,
        forall|k: int| 0 <= k < idx ==> new_groups[k] == old_groups[k],
        new_groups[idx].name@ == file_base(f),
        views(new_groups[idx].members@) == seq![f],
        forall|k: int| idx < k < new_groups.len() ==> new_groups[k] == old_groups[k - 1],
    ensures
        groups_post(prefix1, new_groups),
{
    let base = file_base(f);
    assert forall|k: int, l: int| 0 <= k < l < new_groups.len() implies lex_lt(
        new_groups[k].name@,
        new_groups[l].name@,
    ) by {
        if l > idx {
            if l - 1 > idx {
                crate::text::lemma_lex_transitive(
                    base,
                    old_groups[idx].name@,
                    old_groups[l - 1].name@,
                );
            }
            if k < idx {
                crate::text::lemma_lex_transitive(new_groups[k].name@, base, new_groups[l].name@);
            }
        }
    }
    assert forall|k: int| 0 <= k < new_groups.len() implies spec_bases(prefix1).contains(
        #[trigger] new_groups[k].name@,
    ) by {
        if k == idx {
            assert(prefix1.contains(f));
        } else {
            let ko: int = if k < idx {
                k
            } else {
                k - 1
            };
            assert(spec_bases(prefix).contains(old_groups[ko].name@));
            let w = choose|w: Seq<char>|
                #[trigger] prefix.contains(w) && is_grouped_file(w) && file_base(w)
                    == old_groups[ko].name@;
            assert(prefix1.contains(w));
        }
    }
    assert forall|b: Seq<char>| spec_bases(prefix1).contains(b) implies exists|k: int|
        0 <= k < new_groups.len() && #[trigger] new_groups[k].name@ == b by {
        let w = choose|w: Seq<char>|
            #[trigger] prefix1.contains(w) && is_grouped_file(w) && file_base(w) == b;
        if w == f {
            assert(new_groups[idx].name@ == b);
        } else {
            assert(prefix.contains(w));
            assert(spec_bases(prefix).contains(b));
            let k = choose|k: int| 0 <= k < old_groups.len() && #[trigger] old_groups[k].name@ == b;
            if k < idx {
                assert(new_groups[k].name@ == b);
            } else {
                assert(new_groups[k + 1].name@ == b);
            }
        }
    }
    assert(!spec_bases(prefix).contains(base)) by {
        if spec_bases(prefix).contains(base) {
            let k = choose|k: int|
                0 <= k < old_groups.len() && #[trigger] old_groups[k].name@ == base;
            if k < idx {
                lemma_lex_trichotomy(old_groups[k].name@, base);
            } else {
                if k > idx {
                    crate::text::lemma_lex_transitive(
                        base,
                        old_groups[idx].name@,
                        old_groups[k].name@,
                    );
                }
                lemma_lex_trichotomy(base, old_groups[k].name@);
            }
        }
    }
    assert forall|k: int| 0 <= k < new_groups.len() implies views(#[trigger] new_groups[k].members@)
        .to_set() == group_members(prefix1, new_groups[k].name@) by {
        let name = new_groups[k].name@;
        if k == idx {
            assert forall|x: Seq<char>| group_members(prefix1, base).contains(x) implies x == f by {
                if x != f {
                    assert(prefix.contains(x));
                    assert(spec_bases(prefix).contains(base));
                }
            }
            assert(views(new_groups[idx].members@)[0] == f);
            assert(views(new_groups[idx].members@).to_set() =~= group_members(prefix1, base));
        } else {
            let ko: int = if k < idx {
                k
            } else {
                k - 1
            };
            assert(new_groups[k] == old_groups[ko]);
            lemma_lex_trichotomy(name, base);
            assert(name != base);
            assert(group_members(prefix1, name) =~= group_members(prefix, name));
        }
    }
}

/// The view of an optional file path.
pub open spec fn opt_view(o: Option<String>) -> Option<Seq<char>> {
    match o {
        Some(s) => Some(s@),
        None => None,
    }
}

/// What `gather_texture_sets_from_directory` returns: one set per base name
/// of the input, in strictly sorted name order, each with one layer slot per
/// configured suffix holding the lexicographically first matching file.
pub open spec fn gather_post(
    input: Seq<Seq<char>>,
    suffixes: Seq<Seq<char>>,
    sets: Seq<InputTextureSet>,
) -> bool {
    &&& forall|k: int, l: int| 0 <= k < l < sets.len() ==> lex_lt(sets[k].name@, sets[l].name@)
    &&& forall|k: int| 0 <= k < sets.len() ==> spec_bases(input).contains(#[trigger] sets[k].name@)
    &&& forall|b: Seq<char>|
        spec_bases(input).contains(b) ==> exists|k: int|
            0 <= k < sets.len() && #[trigger] sets[k].name@ == b
    &&& forall|k: int|
        0 <= k < sets.len() ==> (#[trigger] sets[k].textures@).len() == suffixes.len()
    &&& forall|k: int, i: int|
        0 <= k < sets.len() && 0 <= i < suffixes.len() ==> slot_ok(
            input,
            sets[k].name@,
            suffixes[i],
            opt_view(#[trigger] sets[k].textures@[i]),
        )
}

/// The candidate paths for a slot among the first `j` members of a group.
pub open spec fn prefix_candidates(members: Seq<String>, j: int, sfx: Seq<char>) -> Set<Seq<char>> {
    Set::new(
        |f: Seq<char>|
            views(members).subrange(0, j).contains(f) && spec_suffix_of(f) == Some(sfx),
    )
}

/// Extending a prefix of a sequence by one element extends what it contains
/// by exactly that element.
proof fn lemma_prefix_contains(s: Seq<Seq<char>>, j: int)
    requires
        0 <= j < s.len(),
    ensures
        forall|x: Seq<char>|
            s.subrange(0, j + 1).contains(x) <==> (s.subrange(0, j).contains(x) || x == s[j]),
{
    assert forall|x: Seq<char>|
        s.subrange(0, j + 1).contains(x) <==> (s.subrange(0, j).contains(x) || x == s[j]) by {
        if s.subrange(0, j + 1).contains(x) {
            let k = choose|k: int| 0 <= k < j + 1 && #[trigger] s.subrange(0, j + 1)[k] == x;
            if k < j {
                assert(s.subrange(0, j)[k] == x);
            }
        }
        if s.subrange(0, j).contains(x) {
            let k = choose|k: int| 0 <= k < j && s.subrange(0, j)[k] == x;
            assert(s.subrange(0, j + 1)[k] == x);
        }
        if x == s[j] {
            assert(s.subrange(0, j + 1)[j] == x);
        }
    }
}

/// Builds the texture sets of a directory listing: groups the files by base
/// name and aligns each group with the suffix list, filling every slot with
/// the lexicographically first file whose suffix token matches.
pub fn gather_texture_sets_from_directory(files: &Vec<String>, suffixes: &Vec<String>) -> (r: Vec<
    InputTextureSet,
>)
    ensures
        gather_post(views(files@), views(suffixes@), r@),
{
    let ghost input: Seq<Seq<char>> = views(files@);
    let groups: Vec<FileGroup> = collect_and_group_files_by_name(files);
    let mut output: Vec<InputTextureSet> = Vec::new();
    let mut g: usize = 0;
    while g < groups.len()
        invariant
            groups_post(input, groups@),
            input == views(files@),
            output@.len() == g,
            g <= groups@.len(),
            forall|k: int| 0 <= k < g ==> (#[trigger] output@[k].name@) == groups@[k].name@,
            forall|k: int|
                0 <= k < g ==> (#[trigger] output@[k].textures@).len() == views(suffixes@).len(),
            forall|k: int, i: int|
                0 <= k < g && 0 <= i < views(suffixes@).len() ==> slot_ok(
                    input,
                    output@[k].name@,
                    views(suffixes@)[i],
                    opt_view(#[trigger] output@[k].textures@[i]),
                ),
        decreases groups@.len() - g,
    {
        let group: &FileGroup = &groups[g];
        let members_len: usize = group.members.len();
        let mut textures: Vec<Option<String>> = Vec::new();
        let mut i: usize = 0;
        while i < suffixes.len()
            invariant
                groups_post(input, groups@),
                input == views(files@),
                g < groups@.len(),
                group == groups@[g as int],
                members_len == group.members@.len(),
                i <= suffixes@.len(),
                textures@.len() == i,
                forall|ii: int|
                    0 <= ii < i ==> slot_ok(
                        input,
                        group.name@,
                        views(suffixes@)[ii],
                        opt_view(#[trigger] textures@[ii]),
                    ),
            decreases suffixes@.len() - i,
        {
            let sfx: &String = &suffixes[i];
            let mut best: Option<String> = None;
            let mut j: usize = 0;
            proof {
                assert(views(group.members@).subrange(0, 0) =~= Seq::<Seq<char>>::empty());
                assert forall|x: Seq<char>|
                    !prefix_candidates(group.members@, 0, sfx@).contains(x) by {}
                assert(prefix_candidates(group.members@, 0, sfx@) =~= Set::<Seq<char>>::empty());
            }
            while j < members_len
                invariant
                    input == views(files@),
                    members_len == group.members@.len(),
                    j <= members_len,
                    i < suffixes@.len(),
                    sfx == suffixes@[i as int],
                    match best {
                        Some(x) => prefix_candidates(group.members@, j as int, sfx@).contains(x@)
                            && forall|y: Seq<char>|
                            prefix_candidates(group.members@, j as int, sfx@).contains(y) ==> x@
                                == y || lex_lt(x@, y),
                        None => prefix_candidates(group.members@, j as int, sfx@).is_empty(),
                    },
                decreases members_len - j,
            {
                let cand: &String = &group.members[j];
                let ghost pc: Set<Seq<char>> = prefix_candidates(group.members@, j as int, sfx@);
                let ghost pc1: Set<Seq<char>> = prefix_candidates(group.members@, j + 1, sfx@);
                proof {
                    lemma_prefix_contains(views(group.members@), j as int);
                    assert(views(group.members@)[j as int] == cand@);
                    assert forall|x: Seq<char>|
                        pc1.contains(x) <==> (pc.contains(x) || (x == cand@ && spec_suffix_of(
                            cand@,
                        ) == Some(sfx@))) by {}
                }
                let is_match: bool = match suffix_from_filename(cand.as_str()) {
                    Some(s) => str_eq(s.as_str(), sfx.as_str()),
                    None => false,
                };
                if is_match {
                    best = match best {
                        None => {
                            proof {
                                assert forall|y: Seq<char>| pc1.contains(y) implies cand@ == y
                                    || lex_lt(cand@, y) by {
                                    assert(!pc.contains(y));
                                }
                            }
                            Some(cand.clone())
                        }
                        Some(b) => {
                            if str_lt(cand.as_str(), b.as_str()) {
                                proof {
                                    assert forall|y: Seq<char>| pc1.contains(y) implies cand@ == y
                                        || lex_lt(cand@, y) by {
                                        if pc.contains(y) && b@ != y {
                                            crate::text::lemma_lex_transitive(cand@, b@, y);
                                        }
                                    }
                                }
                                Some(cand.clone())
                            } else {
                                proof {
                                    lemma_lex_trichotomy(cand@, b@);
                                }
                                Some(b)
                            }
                        }
                    };
                } else {
                    proof {
                        assert forall|x: Seq<char>| pc1.contains(x) <==> pc.contains(x) by {}
                        assert(pc1 =~= pc);
                    }
                }
                j = j + 1;
            }
            proof {
                let ghost pc_end: Set<Seq<char>> = prefix_candidates(
                    group.members@,
                    members_len as int,
                    sfx@,
                );
                assert(views(group.members@).subrange(0, members_len as int) =~= views(
                    group.members@,
                ));
                assert forall|x: Seq<char>|
                    pc_end.contains(x) <==> slot_candidates(input, group.name@, sfx@).contains(
                        x,
                    ) by {
                    assert(views(group.members@).to_set().contains(x) == views(
                        group.members@,
                    ).contains(x));
                    assert(group_members(input, group.name@).contains(x) == (input.contains(x)
                        && is_grouped_file(x) && file_base(x) == group.name@));
                }
                assert(pc_end =~= slot_candidates(input, group.name@, sfx@));
            }
            textures.push(best);
            i = i + 1;
        }
        let set = InputTextureSet { name: group.name.clone(), textures };
        output.push(set);
        g = g + 1;
    }
    proof {
        assert forall|k: int, l: int| 0 <= k < l < output@.len() implies lex_lt(
            output@[k].name@,
            output@[l].name@,
        ) by {
            assert(output@[k].name@ == groups@[k].name@);
            assert(output@[l].name@ == groups@[l].name@);
        }
        assert forall|k: int| 0 <= k < output@.len() implies spec_bases(input).contains(
            #[trigger] output@[k].name@,
        ) by {
            assert(output@[k].name@ == groups@[k].name@);
        }
        assert forall|b: Seq<char>| spec_bases(input).contains(b) implies exists|k: int|
            0 <= k < output@.len() && #[trigger] output@[k].name@ == b by {
            let k = choose|k: int| 0 <= k < groups@.len() && #[trigger] groups@[k].name@ == b;
            assert(output@[k].name@ == b);
        }
    }
    output
}

/// A sequence of names in strictly ascending lexicographic order.
pub open spec fn strictly_sorted(s: Seq<Seq<char>>) -> bool {
    forall|k: int, l: int| 0 <= k < l < s.len() ==> lex_lt(s[k], s[l])
}

/// Two strictly sorted sequences with the same elements are the same
/// sequence: sorted order is a canonical order.
pub proof fn lemma_sorted_same_set_equal(x: Seq<Seq<char>>, y: Seq<Seq<char>>)
    requires
        strictly_sorted(x),
        strictly_sorted(y),
        x.to_set() == y.to_set(),
    ensures
        x == y,
    decreases x.len(),
{
    if x.len() == 0 {
        if y.len() > 0 {
            assert(y.to_set().contains(y[0]));
            assert(x.contains(y[0]));
        }
        assert(x =~= y);
    } else {
        assert(x.to_set().contains(x[0]));
        assert(y.to_set().contains(x[0]));
        assert(y.contains(x[0]));
        let jy = choose|j: int| 0 <= j < y.len() && y[j] == x[0];
        assert(y.to_set().contains(y[0]));
        assert(x.to_set().contains(y[0]));
        assert(x.contains(y[0]));
        let jx = choose|j: int| 0 <= j < x.len() && x[j] == y[0];
        if jy > 0 {
            assert(lex_lt(y[0], y[jy]));
            if jx > 0 {
                assert(lex_lt(x[0], x[jx]));
                lemma_lex_trichotomy(x[0], y[0]);
            } else {
                lemma_lex_trichotomy(x[0], y[0]);
            }
        }
        assert(x[0] == y[0]);
        let xt = x.skip(1);
        let yt = y.skip(1);
        assert forall|f: Seq<char>| xt.to_set().contains(f) <==> yt.to_set().contains(f) by {
            lemma_tail_set(x, f);
            lemma_tail_set(y, f);
        }
        assert(xt.to_set() =~= yt.to_set());
        lemma_sorted_same_set_equal(xt, yt);
        assert(x.len() == y.len());
        assert forall|k: int| 0 <= k < x.len() implies x[k] == y[k] by {
            if k > 0 {
                assert(xt[k - 1] == x[k]);
                assert(yt[k - 1] == y[k]);
            }
        }
        assert(x =~= y);
    }
}

/// An element is in the tail of a strictly sorted sequence exactly when it
/// is in the whole sequence and is not the head.
proof fn lemma_tail_set(s: Seq<Seq<char>>, f: Seq<char>)
    requires
        strictly_sorted(s),
        s.len() > 0,
    ensures
        s.skip(1).to_set().contains(f) <==> (s.to_set().contains(f) && f != s[0]),
{
    if s.skip(1).to_set().contains(f) {
        let k = choose|k: int| 0 <= k < s.skip(1).len() && s.skip(1)[k] == f;
        assert(s[k + 1] == f);
        assert(lex_lt(s[0], s[k + 1]));
        lemma_lex_trichotomy(s[0], f);
        assert(s.contains(f));
    }
    if s.to_set().contains(f) && f != s[0] {
        let k = choose|k: int| 0 <= k < s.len() && s[k] == f;
        assert(k > 0);
        assert(s.skip(1)[k - 1] == f);
        assert(s.skip(1).contains(f));
    }
}

/// The names of a gathered set list.
pub open spec fn set_names(sets: Seq<InputTextureSet>) -> Seq<Seq<char>> {
    sets.map_values(|s: InputTextureSet| s.name@)
}

/// Law: grouping is deterministic and independent of the order in which the
/// input directory listed its files. Two gatherings of the same file set
/// under the same suffix list name the same texture sets in the same sorted
/// order and fill every layer slot with the same file.
pub proof fn lemma_gather_deterministic(
    in1: Seq<Seq<char>>,
    in2: Seq<Seq<char>>,
    suffixes: Seq<Seq<char>>,
    r1: Seq<InputTextureSet>,
    r2: Seq<InputTextureSet>,
)
    requires
        in1.to_set() == in2.to_set(),
        gather_post(in1, suffixes, r1),
        gather_post(in2, suffixes, r2),
    ensures
        r1.len() == r2.len(),
        forall|k: int| 0 <= k < r1.len() ==> (#[trigger] r1[k].name@) == r2[k].name@,
        forall|k: int, i: int|
            0 <= k < r1.len() && 0 <= i < suffixes.len() ==> opt_view(
                #[trigger] r1[k].textures@[i],
            ) == opt_view(r2[k].textures@[i]),
{
    assert forall|f: Seq<char>| in1.contains(f) <==> in2.contains(f) by {
        assert(in1.to_set().contains(f) == in1.contains(f));
        assert(in2.to_set().contains(f) == in2.contains(f));
    }
    assert forall|b: Seq<char>|
        spec_bases(in1).contains(b) <==> spec_bases(in2).contains(b) by {
        if spec_bases(in1).contains(b) {
            let f = choose|f: Seq<char>|
                #[trigger] in1.contains(f) && is_grouped_file(f) && file_base(f) == b;
            assert(in2.contains(f));
        }
        if spec_bases(in2).contains(b) {
            let f = choose|f: Seq<char>|
                #[trigger] in2.contains(f) && is_grouped_file(f) && file_base(f) == b;
            assert(in1.contains(f));
        }
    }
    let n1 = set_names(r1);
    let n2 = set_names(r2);
    assert forall|b: Seq<char>| n1.to_set().contains(b) <==> n2.to_set().contains(b) by {
        if n1.to_set().contains(b) {
            let k = choose|k: int| 0 <= k < n1.len() && n1[k] == b;
            assert(r1[k].name@ == b);
            assert(spec_bases(in1).contains(b));
            let l = choose|l: int| 0 <= l < r2.len() && #[trigger] r2[l].name@ == b;
            assert(n2[l] == b);
            assert(n2.contains(b));
        }
        if n2.to_set().contains(b) {
            let k = choose|k: int| 0 <= k < n2.len() && n2[k] == b;
            assert(r2[k].name@ == b);
            assert(spec_bases(in2).contains(b));
            let l = choose|l: int| 0 <= l < r1.len() && #[trigger] r1[l].name@ == b;
            assert(n1[l] == b);
            assert(n1.contains(b));
        }
    }
    assert(n1.to_set() =~= n2.to_set());
    assert(strictly_sorted(n1));
    assert(strictly_sorted(n2));
    lemma_sorted_same_set_equal(n1, n2);
    assert forall|k: int| 0 <= k < r1.len() implies (#[trigger] r1[k].name@) == r2[k].name@ by {
        assert(n1[k] == n2[k]);
    }
    assert forall|k: int, i: int|
        0 <= k < r1.len() && 0 <= i < suffixes.len() implies opt_view(
        #[trigger] r1[k].textures@[i],
    ) == opt_view(r2[k].textures@[i]) by {
        let b = r1[k].name@;
        let sfx = suffixes[i];
        assert forall|f: Seq<char>|
            slot_candidates(in1, b, sfx).contains(f) <==> slot_candidates(in2, b, sfx).contains(
                f,
            ) by {}
        assert(slot_candidates(in1, b, sfx) =~= slot_candidates(in2, b, sfx));
        let s1 = opt_view(r1[k].textures@[i]);
        let s2 = opt_view(r2[k].textures@[i]);
        assert(slot_ok(in1, b, sfx, s1));
        assert(slot_ok(in2, r2[k].name@, sfx, s2));
        match (s1, s2) {
            (Some(a), Some(c)) => {
                lemma_lex_trichotomy(a, c);
            }
            (Some(a), None) => {
                assert(slot_candidates(in1, b, sfx).contains(a));
            }
            (None, Some(c)) => {
                assert(slot_candidates(in2, b, sfx).contains(c));
            }
            (None, None) => {}
        }
    }
}

} // verus!
