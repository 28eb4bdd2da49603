//! Combining the package manager's reports into one package list, and
//! turning an outbound request into the command line to run.
use std::cmp::Ordering;
use vstd::prelude::*;
use crate::error::AppError;
use crate::natural::{natural, natural_cmp};
use crate::structs::{EventCommand, Package, PackageUpdate};
use crate::text::{copy_string, copy_strings, views};

verus! {

/// The packages of `all` whose name is not among those of `installed`.
pub open spec fn not_installed(all: Seq<Package>, installed: Seq<Package>) -> Seq<Package>
    decreases all.len(),
{
    if all.len() == 0 {
        all
    } else if exists|i: int| 0 <= i < installed.len() && #[trigger] installed[i].name@ == all.last().name@ {
        not_installed(all.drop_last(), installed)
    } else {
        not_installed(all.drop_last(), installed).push(all.last())
    }
}

/// Where a stable insertion by name puts `x` into `s`.
pub open spec fn name_pos(s: Seq<Package>, x: Package) -> int
    decreases s.len(),
{
    if s.len() == 0 {
        0
    } else if natural(s.last().name@, x.name@) <= 0 {
        s.len() as int
    } else {
        name_pos(s.drop_last(), x)
    }
}

/// The packages in the natural order of their names; equal names keep their order.
pub open spec fn sort_by_name(s: Seq<Package>) -> Seq<Package>
    decreases s.len(),
{
    if s.len() == 0 {
        s
    } else {
        let t = sort_by_name(s.drop_last());
        t.insert(name_pos(t, s.last()), s.last())
    }
}

/// The last update for the package named `name`, or -1.
pub open spec fn update_for(updates: Seq<PackageUpdate>, name: Seq<char>) -> int
    decreases updates.len(),
{
    if updates.len() == 0 {
        -1
    } else if updates.last().name@ == name {
        updates.len() - 1
    } else {
        update_for(updates.drop_last(), name)
    }
}

/// The first list of provided files for the package named `name`, or -1.
pub open spec fn provides_for(provides: Seq<(String, Vec<String>)>, name: Seq<char>) -> int
    decreases provides.len(),
{
    if provides.len() == 0 {
        -1
    } else if provides[0].0@ == name {
        0
    } else if provides_for(provides.drop_first(), name) < 0 {
        -1
    } else {
        provides_for(provides.drop_first(), name) + 1
    }
}

/// `p` with its update and provided files attached: the last update that
/// names it and the first list of files that names it, where there are such.
pub open spec fn completed(p: Package, q: Package, updates: Seq<PackageUpdate>, provides: Seq<(String, Vec<String>)>) -> bool {
    let u = update_for(updates, p.name@);
    let f = provides_for(provides, p.name@);
    &&& q.name == p.name
    &&& q.required_by == p.required_by
    &&& q.optional_for == p.optional_for
    &&& q.dependencies == p.dependencies
    &&& q.reason == p.reason
    &&& q.version == p.version
    &&& q.description == p.description
    &&& q.validated == p.validated
    &&& q.installed == p.installed
    &&& q.new_version_size == p.new_version_size
    &&& u < 0 ==> q.new_version == p.new_version && q.change_type == p.change_type
    &&& u >= 0 ==> q.new_version == Some(updates[u].new_version) && q.change_type == Some(updates[u].change_type)
    &&& f < 0 ==> q.provides == p.provides
    &&& f >= 0 ==> views(q.provides@) == views(provides[f].1@)
}

fn last_update(updates: &Vec<PackageUpdate>, name: &String) -> (r: Option<usize>)
    ensures
        r.is_none() == (update_for(updates@, name@) < 0),
        r.is_some() ==> r.unwrap() as int == update_for(updates@, name@) && r.unwrap() < updates@.len(),
{
    let mut i: usize = updates.len();
    assert(updates@.take(i as int) =~= updates@);
    while i > 0
        invariant
            i <= updates@.len(),
            update_for(updates@, name@) == update_for(updates@.take(i as int), name@),
        decreases i,
    {
        assert(updates@.take(i as int).drop_last() =~= updates@.take(i - 1));
        assert(updates@.take(i as int).last() == updates@[i - 1]);
        if updates[i - 1].name == *name {
            return Some(i - 1);
        }
        i = i - 1;
    }
    None
}

fn first_provides(provides: &Vec<(String, Vec<String>)>, name: &String) -> (r: Option<usize>)
    ensures
        r.is_none() == (provides_for(provides@, name@) < 0),
        r.is_some() ==> r.unwrap() as int == provides_for(provides@, name@) && r.unwrap() < provides@.len(),
{
    let mut i: usize = 0;
    while i < provides.len()
        invariant
            i <= provides@.len(),
            forall|k: int| 0 <= k < i ==> #[trigger] provides@[k].0@ != name@,
        decreases provides.len() - i,
    {
        if provides[i].0 == *name {
            proof {
                lemma_provides_for(provides@, name@, i as int);
            }
            return Some(i);
        }
        i = i + 1;
    }
    proof {
        lemma_provides_for(provides@, name@, -1);
    }
    None
}

proof fn lemma_provides_for(s: Seq<(String, Vec<String>)>, name: Seq<char>, j: int)
    requires
        -1 <= j < s.len(),
        j >= 0 ==> s[j].0@ == name,
        forall|i: int| 0 <= i < s.len() && (j < 0 || i < j) ==> #[trigger] s[i].0@ != name,
    ensures
        provides_for(s, name) == j,
    decreases s.len(),
{
    if s.len() > 0 && j != 0 {
        let t = s.drop_first();
        assert(s[0].0@ != name);
        assert forall|i: int| 0 <= i < t.len() && (j - 1 < 0 || i < j - 1) implies #[trigger] t[i].0@ != name by {
            assert(t[i] == s[i + 1]);
        }
        lemma_provides_for(t, name, if j > 0 { j - 1 } else { -1 });
    }
}

fn is_installed_name(installed: &Vec<Package>, name: &String) -> (r: bool)
    ensures
        r == exists|i: int| 0 <= i < installed@.len() && #[trigger] installed@[i].name@ == name@,
{
    let mut i: usize = 0;
    while i < installed.len()
        invariant
            i <= installed@.len(),
            forall|k: int| 0 <= k < i ==> #[trigger] installed@[k].name@ != name@,
        decreases installed.len() - i,
    {
        if installed[i].name == *name {
            return true;
        }
        i = i + 1;
    }
    false
}

fn name_after(a: &Package, b: &Package) -> (r: bool)
    ensures
        r == (natural(a.name@, b.name@) > 0),
{
    match natural_cmp(a.name.as_str(), b.name.as_str()) {
        Ordering::Greater => true,
        _ => false,
    }
}

/// Sorts packages by the natural order of their names, keeping the order of
/// equal names.
fn sort_packages(items: Vec<Package>) -> (r: Vec<Package>)
    ensures
        r@ == sort_by_name(items@),
{
    let ghost orig = items@;
    let n = items.len();
    let mut rest = items;
    let mut out: Vec<Package> = Vec::new();
    let mut k: usize = 0;
    assert(orig.take(0) =~= Seq::<Package>::empty());
    while rest.len() > 0
        invariant
            orig.len() == n,
            k <= n,
            rest@ == orig.skip(k as int),
            out@ == sort_by_name(orig.take(k as int)),
        decreases rest.len(),
    {
        let x = rest.remove(0);
        assert(rest@ =~= orig.skip(k + 1));
        assert(orig.take(k + 1).drop_last() =~= orig.take(k as int));
        let mut p: usize = out.len();
        let ghost t = out@;
        assert(t.take(p as int) =~= t);
        while p > 0 && name_after(&out[p - 1], &x)
            invariant
                p <= out@.len(),
                t == out@,
                name_pos(t, x) == name_pos(t.take(p as int), x),
            decreases p,
        {
            assert(t.take(p as int).drop_last() =~= t.take(p - 1));
            p = p - 1;
        }
        proof {
            if p == 0 {
                assert(t.take(0) =~= Seq::<Package>::empty());
            }
        }
        out.insert(p, x);
        k = k + 1;
    }
    assert(orig.take(k as int) =~= orig);
    out
}

/// Combines the installed packages, the packages of the repositories that
/// are not installed, the pending updates and the provided files into one
/// list sorted by the natural order of the names. Each package gets the
/// last update that names it and the first list of files that names it.
pub fn combine_packages(
    installed: Vec<Package>,
    all: Vec<Package>,
    updates: Vec<PackageUpdate>,
    provides: Vec<(String, Vec<String>)>,
) -> (r: Vec<Package>)
    ensures
        r@.len() == sort_by_name(installed@ + not_installed(all@, installed@)).len(),
        forall|i: int| 0 <= i < r@.len() ==> completed(
            sort_by_name(installed@ + not_installed(all@, installed@))[i],
            #[trigger] r@[i],
            updates@,
            provides@,
        ),
{
    let ghost inst = installed@;
    let mut others: Vec<Package> = Vec::new();
    let mut rest = all;
    let ghost orig_all = rest@;
    let mut k: usize = 0;
    let n = rest.len();
    assert(orig_all.take(0) =~= Seq::<Package>::empty());
    while rest.len() > 0
        invariant
            orig_all.len() == n,
            k <= n,
            rest@ == orig_all.skip(k as int),
            inst == installed@,
            others@ == not_installed(orig_all.take(k as int), inst),
        decreases rest.len(),
    {
        let x = rest.remove(0);
        assert(rest@ =~= orig_all.skip(k + 1));
        assert(orig_all.take(k + 1).drop_last() =~= orig_all.take(k as int));
        assert(orig_all.take(k + 1).last() == x);
        if !is_installed_name(&installed, &x.name) {
            others.push(x);
        }
        k = k + 1;
    }
    assert(orig_all.take(k as int) =~= orig_all);
    let mut combined = installed;
    combined.append(&mut others);
    let sorted = sort_packages(combined);
    let ghost goal = sorted@;
    let mut out: Vec<Package> = Vec::new();
    let mut rest = sorted;
    let total = rest.len();
    let mut j: usize = 0;
    while rest.len() > 0
        invariant
            goal.len() == total,
            j <= total,
            rest@ == goal.skip(j as int),
            out@.len() == j,
            forall|i: int| 0 <= i < j ==> completed(goal[i], #[trigger] out@[i], updates@, provides@),
        decreases rest.len(),
    {
        let mut p = rest.remove(0);
        assert(rest@ =~= goal.skip(j + 1));
        let ghost orig_p = p;
        match last_update(&updates, &p.name) {
            Some(u) => {
                p.new_version = Some(updates[u].new_version.clone());
                p.change_type = Some(updates[u].change_type);
            },
            None => {},
        }
        match first_provides(&provides, &p.name) {
            Some(f) => {
                let files = copy_strings(&provides[f].1);
                assert(views(files@) =~= views(provides@[f as int].1@));
                p.provides = files;
            },
            None => {},
        }
        out.push(p);
        j = j + 1;
    }
    out
}

/// The command line for a request: the program, its arguments, and the
/// names it applies to. A request about selected packages with none
/// selected is refused.
pub open spec fn command_flag(command: EventCommand) -> Seq<char> {
    match command {
        EventCommand::RemoveSelected(_) => "-R"@,
        EventCommand::InstallOrUpdateSelected(_) => "-S"@,
        EventCommand::QuerySelected(_) => "-Qi"@,
        EventCommand::SyncDatabase => "-Sy"@,
        EventCommand::SyncAndUpdateAll => "-Syu"@,
    }
}

/// The names a request applies to (none for the database requests).
pub open spec fn command_names(command: EventCommand) -> Seq<Seq<char>> {
    match command {
        EventCommand::RemoveSelected(p) => views(p@),
        EventCommand::InstallOrUpdateSelected(p) => views(p@),
        EventCommand::QuerySelected(p) => views(p@),
        _ => seq![],
    }
}

pub open spec fn needs_names(command: EventCommand) -> bool {
    match command {
        EventCommand::SyncDatabase | EventCommand::SyncAndUpdateAll => false,
        _ => true,
    }
}

/// The command line for a request: `pacman`, the request's flag, then the
/// names it applies to. A request about selected packages with none
/// selected is refused.
pub fn command_line(command: EventCommand) -> (r: Result<Vec<String>, AppError>)
    ensures
        (needs_names(command) && command_names(command).len() == 0) <==> r is Err,
        r is Err ==> r->Err_0 is Other,
        r is Ok ==> views(r->Ok_0@) == seq!["pacman"@, command_flag(command)] + command_names(command),
{
    let ghost c = command;
    let (flag, packs, needs) = match command {
        EventCommand::RemoveSelected(p) => ("-R", p, true),
        EventCommand::InstallOrUpdateSelected(p) => ("-S", p, true),
        EventCommand::QuerySelected(p) => ("-Qi", p, true),
        EventCommand::SyncDatabase => ("-Sy", Vec::new(), false),
        EventCommand::SyncAndUpdateAll => ("-Syu", Vec::new(), false),
    };
    assert(flag@ == command_flag(c));
    assert(views(packs@) =~= command_names(c));
    if needs && packs.len() == 0 {
        return Err(AppError::Other(String::from_str("No packages selected")));
    }
    let mut args: Vec<String> = vec![String::from_str("pacman"), String::from_str(flag)];
    let mut i: usize = 0;
    while i < packs.len()
        invariant
            i <= packs@.len(),
            views(args@) == seq!["pacman"@, flag@] + views(packs@).take(i as int),
        decreases packs.len() - i,
    {
        let ghost before = views(args@);
        args.push(copy_string(&packs[i]));
        assert(views(args@) =~= before.push(packs@[i as int]@));
        assert(views(packs@).take(i + 1) =~= views(packs@).take(i as int).push(packs@[i as int]@));
        i = i + 1;
    }
    assert(views(packs@).take(i as int) =~= views(packs@));
    assert(views(args@) =~= seq!["pacman"@, command_flag(c)] + command_names(c));
    Ok(args)
}

} // verus!
