//! Reading the package manager's package report (`pacman -Qi` / `-Si`): one
//! `Key : Value` line per field, a `Name` line starting each package, and,
//! for file listings, lines that start with the package's name.
use vstd::prelude::*;
use crate::structs::{Package, PackageUpdate, Reason};
use crate::text::{chars_of, string_of, views};
use crate::version::{after_first, before_first, change_between_texts, index_of, version_change, ChangeType};

verus! {

/// What `char::is_whitespace` says of a character.
pub uninterp spec fn whitespace(c: char) -> bool;

/// Relies on `char::is_whitespace`: space, tab, line feed and carriage
/// return are whitespace; ASCII letters and digits are not.
#[verifier::external_body]
fn is_whitespace(c: char) -> (r: bool)
    ensures
        r == whitespace(c),
        c == ' ' || c == '\t' || c == '\n' || c == '\r' ==> r,
        ('a' <= c <= 'z') || ('A' <= c <= 'Z') || ('0' <= c <= '9') ==> !r,
{
    c.is_whitespace()
}

/// The text that jiff gives for an install date, if it reads one.
pub uninterp spec fn datetime_text(s: Seq<char>) -> Option<Seq<char>>;

/// Relies on `jiff::fmt::strtime::parse` with pacman's date format and on
/// `BrokenDownTime::to_datetime`: the civil date-time that the text names,
/// written by `DateTime`'s `Display` (`2024-07-15T16:24:59`); `None` when
/// the text is not such a date.
#[verifier::external_body]
fn parse_datetime(value: &str) -> (r: Option<String>)
    ensures
        match r {
            Some(d) => datetime_text(value@) == Some(d@),
            None => datetime_text(value@) is None,
        },
{
    match jiff::fmt::strtime::parse("%a %b %e %H:%M:%S %Y", value) {
        Ok(t) => match t.to_datetime() {
            Ok(d) => Some(d.to_string()),
            Err(_) => None,
        },
        Err(_) => None,
    }
}

/// `s` without its leading whitespace.
pub open spec fn trim_start(s: Seq<char>) -> Seq<char>
    decreases s.len(),
{
    if s.len() > 0 && whitespace(s[0]) {
        trim_start(s.drop_first())
    } else {
        s
    }
}

/// `s` without its trailing whitespace.
pub open spec fn trim_end(s: Seq<char>) -> Seq<char>
    decreases s.len(),
{
    if s.len() > 0 && whitespace(s.last()) {
        trim_end(s.drop_last())
    } else {
        s
    }
}

pub open spec fn trim(s: Seq<char>) -> Seq<char> {
    trim_end(trim_start(s))
}

/// The maximal runs of non-whitespace characters of `s`.
pub open spec fn words(s: Seq<char>) -> Seq<Seq<char>>
    decreases s.len(),
{
    if s.len() == 0 {
        seq![]
    } else if whitespace(s.last()) {
        words(s.drop_last())
    } else if s.len() > 1 && !whitespace(s[s.len() - 2]) {
        let w = words(s.drop_last());
        w.update(w.len() - 1, w.last().push(s.last()))
    } else {
        words(s.drop_last()).push(seq![s.last()])
    }
}

/// The words other than `None`, which the report writes for an empty list.
pub open spec fn listed(ws: Seq<Seq<char>>) -> Seq<Seq<char>>
    decreases ws.len(),
{
    if ws.len() == 0 {
        ws
    } else if ws.last() == "None"@ {
        listed(ws.drop_last())
    } else {
        listed(ws.drop_last()).push(ws.last())
    }
}

/// The lines ended so far (without their `\n`, and without a `\r` before
/// it) and the text after the last line feed.
pub open spec fn split_lines(s: Seq<char>) -> (Seq<Seq<char>>, Seq<char>)
    decreases s.len(),
{
    if s.len() == 0 {
        (seq![], seq![])
    } else {
        let (done, cur) = split_lines(s.drop_last());
        if s.last() == '\n' {
            (done.push(if cur.len() > 0 && cur.last() == '\r' {
                cur.drop_last()
            } else {
                cur
            }), seq![])
        } else {
            (done, cur.push(s.last()))
        }
    }
}

/// The lines of a text, as `str::lines` gives them.
pub open spec fn text_lines(s: Seq<char>) -> Seq<Seq<char>> {
    let (done, cur) = split_lines(s);
    if cur.len() > 0 {
        done.push(cur)
    } else {
        done
    }
}

/// Why a package is installed, as text values.
pub enum ReasonView {
    Dependency,
    Explicit,
    Other(Seq<char>),
}

/// The fields of a package that a report gives, as text values.
pub struct PackageView {
    pub name: Seq<char>,
    pub version: Seq<char>,
    pub description: Seq<char>,
    pub dependencies: Seq<Seq<char>>,
    pub required_by: Seq<Seq<char>>,
    pub optional_for: Seq<Seq<char>>,
    pub provides: Seq<Seq<char>>,
    pub reason: ReasonView,
    pub installed: Option<Seq<char>>,
    pub validated: bool,
}

pub open spec fn reason_view(r: Reason) -> ReasonView {
    match r {
        Reason::Dependency => ReasonView::Dependency,
        Reason::Explicit => ReasonView::Explicit,
        Reason::Other(s) => ReasonView::Other(s@),
    }
}

pub open spec fn package_view(p: Package) -> PackageView {
    PackageView {
        name: p.name@,
        version: p.version@,
        description: p.description@,
        dependencies: views(p.dependencies@),
        required_by: views(p.required_by@),
        optional_for: views(p.optional_for@),
        provides: views(p.provides@),
        reason: reason_view(p.reason),
        installed: match p.installed {
            Some(d) => Some(d@),
            None => None,
        },
        validated: p.validated,
    }
}

pub open spec fn package_views(s: Seq<Package>) -> Seq<PackageView> {
    s.map_values(|p: Package| package_view(p))
}

pub open spec fn blank() -> PackageView {
    PackageView {
        name: seq![],
        version: seq![],
        description: seq![],
        dependencies: seq![],
        required_by: seq![],
        optional_for: seq![],
        provides: seq![],
        reason: ReasonView::Dependency,
        installed: None,
        validated: false,
    }
}

/// `t` with every `T` written as a space.
pub open spec fn t_to_space(t: Seq<char>) -> Seq<char> {
    Seq::new(t.len(), |i: int| if t[i] == 'T' { ' ' } else { t[i] })
}

/// The install date as shown: the date and time separated by a space, or
/// the text itself when it is not a date.
pub open spec fn date_value(v: Seq<char>) -> Seq<char> {
    match datetime_text(v) {
        Some(d) => t_to_space(d),
        None => v,
    }
}

pub open spec fn install_reason(v: Seq<char>) -> ReasonView {
    if v == "Explicitly installed"@ {
        ReasonView::Explicit
    } else if v == "Installed as a dependency for another package"@ {
        ReasonView::Dependency
    } else {
        ReasonView::Other(v)
    }
}

/// One line's effect on the packages read so far and the one being read.
pub open spec fn step(packs: Seq<PackageView>, cur: PackageView, line: Seq<char>) -> (Seq<PackageView>, PackageView) {
    if cur.name.len() > 0 && cur.name.len() <= line.len() && line.take(cur.name.len() as int) == cur.name {
        match after_first(line, ' ') {
            Some(path) => (packs, PackageView { provides: cur.provides.push(path), ..cur }),
            None => (packs, cur),
        }
    } else if index_of(line, ':') < 0 {
        (packs, cur)
    } else {
        let key = trim(before_first(line, ':'));
        let value = trim(after_first(line, ':').unwrap());
        if key == "Name"@ {
            if cur.name.len() > 0 {
                (packs.push(cur), PackageView { name: value, ..blank() })
            } else {
                (packs, PackageView { name: value, ..cur })
            }
        } else if key == "Version"@ {
            (packs, PackageView { version: value, ..cur })
        } else if key == "Depends On"@ {
            (packs, PackageView { dependencies: listed(words(value)), ..cur })
        } else if key == "Required By"@ {
            (packs, PackageView { required_by: listed(words(value)), ..cur })
        } else if key == "Optional For"@ {
            (packs, PackageView { optional_for: listed(words(value)), ..cur })
        } else if key == "Install Reason"@ {
            (packs, PackageView { reason: install_reason(value), ..cur })
        } else if key == "Install Date"@ {
            (packs, PackageView { installed: Some(date_value(value)), ..cur })
        } else if key == "Description"@ {
            (packs, PackageView { description: value, ..cur })
        } else if key == "Validated By"@ {
            (packs, PackageView { validated: value == "Signature"@, ..cur })
        } else {
            (packs, cur)
        }
    }
}

/// The packages read from the first lines, and the one still being read.
pub open spec fn read_lines(lines: Seq<Seq<char>>) -> (Seq<PackageView>, PackageView)
    decreases lines.len(),
{
    if lines.len() == 0 {
        (seq![], blank())
    } else {
        let (packs, cur) = read_lines(lines.drop_last());
        step(packs, cur, lines.last())
    }
}

/// The packages of a report: each one read, then the last one.
pub open spec fn report(text: Seq<char>) -> Seq<PackageView> {
    let (packs, cur) = read_lines(text_lines(text));
    packs.push(cur)
}

proof fn lemma_words_shape(s: Seq<char>)
    requires
        s.len() > 0,
        !whitespace(s.last()),
    ensures
        words(s).len() > 0,
    decreases s.len(),
{
    if s.len() > 1 && !whitespace(s[s.len() - 2]) {
        lemma_words_shape(s.drop_last());
    }
}

/// The lines of `cs`.
fn lines_of(cs: &Vec<char>) -> (r: Vec<Vec<char>>)
    ensures
        r@.map_values(|l: Vec<char>| l@) == text_lines(cs@),
{
    let mut done: Vec<Vec<char>> = Vec::new();
    let mut cur: Vec<char> = Vec::new();
    let mut i: usize = 0;
    while i < cs.len()
        invariant
            i <= cs@.len(),
            done@.map_values(|l: Vec<char>| l@) == split_lines(cs@.take(i as int)).0,
            cur@ == split_lines(cs@.take(i as int)).1,
        decreases cs.len() - i,
    {
        let c = cs[i];
        assert(cs@.take(i + 1).drop_last() =~= cs@.take(i as int));
        let ghost before = done@.map_values(|l: Vec<char>| l@);
        if c == '\n' {
            if cur.len() > 0 && cur[cur.len() - 1] == '\r' {
                cur.pop();
            }
            let line = cur;
            cur = Vec::new();
            let ghost lv = line@;
            done.push(line);
            assert(done@.map_values(|l: Vec<char>| l@) =~= before.push(lv));
        } else {
            cur.push(c);
        }
        i = i + 1;
    }
    assert(cs@.take(i as int) =~= cs@);
    if cur.len() > 0 {
        let ghost before = done@.map_values(|l: Vec<char>| l@);
        let ghost cv = cur@;
        done.push(cur);
        assert(done@.map_values(|l: Vec<char>| l@) =~= before.push(cv));
    }
    done
}

fn trimmed(v: &Vec<char>, from: usize, to: usize) -> (r: Vec<char>)
    requires
        from <= to <= v@.len(),
    ensures
        r@ == trim(v@.subrange(from as int, to as int)),
{
    let mut a = from;
    while a < to && is_whitespace(v[a])
        invariant
            from <= a <= to,
            to <= v@.len(),
            trim_start(v@.subrange(from as int, to as int)) == trim_start(v@.subrange(a as int, to as int)),
        decreases to - a,
    {
        assert(v@.subrange(a as int, to as int).drop_first() =~= v@.subrange(a + 1, to as int));
        a = a + 1;
    }
    let mut b = to;
    assert(v@.subrange(a as int, b as int) =~= trim_start(v@.subrange(from as int, to as int)));
    while b > a && is_whitespace(v[b - 1])
        invariant
            a <= b <= to,
            to <= v@.len(),
            trim(v@.subrange(from as int, to as int)) == trim_end(v@.subrange(a as int, b as int)),
        decreases b - a,
    {
        assert(v@.subrange(a as int, b as int).drop_last() =~= v@.subrange(a as int, b - 1));
        b = b - 1;
    }
    let mut r: Vec<char> = Vec::new();
    let mut k = a;
    while k < b
        invariant
            a <= k <= b,
            b <= v@.len(),
            r@ == v@.subrange(a as int, k as int),
        decreases b - k,
    {
        r.push(v[k]);
        k = k + 1;
        assert(r@ =~= v@.subrange(a as int, k as int));
    }
    r
}

/// The words of `v`, other than `None`.
fn listed_words(v: &Vec<char>) -> (r: Vec<String>)
    ensures
        views(r@) == listed(words(v@)),
{
    let mut ws: Vec<Vec<char>> = Vec::new();
    let mut i: usize = 0;
    while i < v.len()
        invariant
            i <= v@.len(),
            ws@.map_values(|w: Vec<char>| w@) == words(v@.take(i as int)),
            i > 0 && !whitespace(v@[i - 1]) ==> ws@.len() > 0,
        decreases v.len() - i,
    {
        let c = v[i];
        let ghost pre = v@.take(i as int);
        assert(v@.take(i + 1).drop_last() =~= pre);
        let ghost before = ws@.map_values(|w: Vec<char>| w@);
        if is_whitespace(c) {
        } else if i > 0 && !is_whitespace(v[i - 1]) {
            assert(pre.last() == v@[i - 1]);
            let last = ws.len() - 1;
            let mut w = ws.remove(last);
            let ghost wv = w@;
            w.push(c);
            ws.push(w);
            assert(ws@.map_values(|w: Vec<char>| w@) =~= before.update(last as int, wv.push(c)));
        } else {
            let w = vec![c];
            assert(w@ =~= seq![c]);
            ws.push(w);
            assert(ws@.map_values(|w: Vec<char>| w@) =~= before.push(seq![c]));
        }
        i = i + 1;
    }
    assert(v@.take(i as int) =~= v@);
    let none = chars_of("None");
    let mut r: Vec<String> = Vec::new();
    let mut k: usize = 0;
    let ghost all = ws@.map_values(|w: Vec<char>| w@);
    while k < ws.len()
        invariant
            all == ws@.map_values(|w: Vec<char>| w@),
            none@ == "None"@,
            k <= ws@.len(),
            views(r@) == listed(all.take(k as int)),
        decreases ws.len() - k,
    {
        assert(all.take(k + 1).drop_last() =~= all.take(k as int));
        assert(all.take(k + 1).last() == ws@[k as int]@);
        let ghost before = views(r@);
        if !same(&ws[k], &none) {
            let s = string_of(&ws[k]);
            r.push(s);
            assert(views(r@) =~= before.push(ws@[k as int]@));
        }
        k = k + 1;
    }
    assert(all.take(k as int) =~= all);
    r
}

fn same(a: &Vec<char>, b: &Vec<char>) -> (r: bool)
    ensures
        r == (a@ == b@),
{
    if a.len() != b.len() {
        return false;
    }
    let mut i: usize = 0;
    while i < a.len()
        invariant
            a@.len() == b@.len(),
            i <= a@.len(),
            forall|j: int| 0 <= j < i ==> a@[j] == b@[j],
        decreases a.len() - i,
    {
        if a[i] != b[i] {
            return false;
        }
        i = i + 1;
    }
    assert(a@ =~= b@);
    true
}

fn is_text(a: &Vec<char>, b: &str) -> (r: bool)
    ensures
        r == (a@ == b@),
{
    same(a, &chars_of(b))
}

/// A package with no fields read yet.
fn blank_package() -> (r: Package)
    ensures
        package_view(r) == blank(),
{
    let r = Package {
        name: String::new(),
        required_by: Vec::new(),
        optional_for: Vec::new(),
        dependencies: Vec::new(),
        provides: Vec::new(),
        reason: Reason::Dependency,
        version: String::new(),
        description: String::new(),
        validated: false,
        installed: None,
        new_version: None,
        change_type: None,
        new_version_size: None,
    };
    assert(package_view(r) == blank()) by {
        assert(views(r.required_by@) =~= seq![]);
        assert(views(r.optional_for@) =~= seq![]);
        assert(views(r.dependencies@) =~= seq![]);
        assert(views(r.provides@) =~= seq![]);
    }
    r
}

fn date_of(value: &Vec<char>) -> (r: String)
    ensures
        r@ == date_value(value@),
{
    let text = string_of(value);
    match parse_datetime(text.as_str()) {
        Some(d) => {
            let cs = chars_of(d.as_str());
            let mut out: Vec<char> = Vec::new();
            let mut i: usize = 0;
            while i < cs.len()
                invariant
                    i <= cs@.len(),
                    out@ == t_to_space(cs@).take(i as int),
                decreases cs.len() - i,
            {
                out.push(if cs[i] == 'T' { ' ' } else { cs[i] });
                i = i + 1;
                assert(out@ =~= t_to_space(cs@).take(i as int));
            }
            assert(t_to_space(cs@).take(i as int) =~= t_to_space(cs@));
            string_of(&out)
        },
        None => text,
    }
}

/// Applies one line of the report.
fn read_line(packs: &mut Vec<Package>, cur: &mut Package, line: &Vec<char>)
    ensures
        (package_views(final(packs)@), package_view(*final(cur))) == step(package_views(old(packs)@), package_view(*old(cur)), line@),
{
    let name = chars_of(cur.name.as_str());
    let starts = has_prefix(line, &name);
    if starts {
        let n = line.len();
        match index_of_char(line, ' ') {
            Some(p) => {
                let path = string_of(&slice_of(line, p + 1, n));
                let ghost pv = views(cur.provides@);
                cur.provides.push(path);
                assert(views(cur.provides@) =~= pv.push(line@.skip(p + 1)));
                assert(line@.skip(p + 1) =~= line@.subrange(p + 1, line@.len() as int));
            },
            None => {},
        }
        return;
    }
    let colon = match index_of_char(line, ':') {
        Some(c) => c,
        None => {
            return;
        },
    };
    let n = line.len();
    let key = trimmed(line, 0, colon);
    let value = trimmed(line, colon + 1, n);
    assert(line@.subrange(0, colon as int) =~= before_first(line@, ':'));
    assert(line@.subrange(colon + 1, line@.len() as int) =~= after_first(line@, ':').unwrap());
    if is_text(&key, "Name") {
        if name.len() > 0 {
            let mut next = blank_package();
            next.name = string_of(&value);
            let done = cur.copy();
            *cur = next;
            packs.push(done);
            assert(package_views(packs@) =~= package_views(old(packs)@).push(package_view(*old(cur))));
        } else {
            cur.name = string_of(&value);
        }
    } else if is_text(&key, "Version") {
        cur.version = string_of(&value);
    } else if is_text(&key, "Depends On") {
        cur.dependencies = listed_words(&value);
    } else if is_text(&key, "Required By") {
        cur.required_by = listed_words(&value);
    } else if is_text(&key, "Optional For") {
        cur.optional_for = listed_words(&value);
    } else if is_text(&key, "Install Reason") {
        cur.reason = if is_text(&value, "Explicitly installed") {
            Reason::Explicit
        } else if is_text(&value, "Installed as a dependency for another package") {
            Reason::Dependency
        } else {
            Reason::Other(string_of(&value))
        };
    } else if is_text(&key, "Install Date") {
        cur.installed = Some(date_of(&value));
    } else if is_text(&key, "Description") {
        cur.description = string_of(&value);
    } else if is_text(&key, "Validated By") {
        cur.validated = is_text(&value, "Signature");
    }
}

/// Whether `line` starts with the non-empty `name`.
fn has_prefix(line: &Vec<char>, name: &Vec<char>) -> (r: bool)
    ensures
        r == (name@.len() > 0 && name@.len() <= line@.len() && line@.take(name@.len() as int) == name@),
{
    if name.len() == 0 || name.len() > line.len() {
        return false;
    }
    let mut k: usize = 0;
    while k < name.len()
        invariant
            name@.len() <= line@.len(),
            k <= name@.len(),
            forall|j: int| 0 <= j < k ==> line@[j] == name@[j],
        decreases name.len() - k,
    {
        if line[k] != name[k] {
            assert(line@.take(name@.len() as int)[k as int] != name@[k as int]);
            return false;
        }
        k = k + 1;
    }
    assert(line@.take(name@.len() as int) =~= name@);
    true
}

fn index_of_char(v: &Vec<char>, c: char) -> (r: Option<usize>)
    ensures
        r.is_none() == (index_of(v@, c) < 0),
        r.is_some() ==> r.unwrap() as int == index_of(v@, c) && r.unwrap() < v@.len(),
{
    let mut i: usize = 0;
    while i < v.len()
        invariant
            i <= v@.len(),
            forall|k: int| 0 <= k < i ==> #[trigger] v@[k] != c,
        decreases v.len() - i,
    {
        if v[i] == c {
            proof {
                crate::version::lemma_index_of(v@, c, i as int);
            }
            return Some(i);
        }
        i = i + 1;
    }
    proof {
        crate::version::lemma_index_of(v@, c, -1);
    }
    None
}

fn slice_of(v: &Vec<char>, a: usize, b: usize) -> (r: Vec<char>)
    requires
        a <= b <= v@.len(),
    ensures
        r@ == v@.subrange(a as int, b as int),
{
    let mut r: Vec<char> = Vec::new();
    let mut i: usize = a;
    while i < b
        invariant
            a <= i <= b,
            b <= v@.len(),
            r@ == v@.subrange(a as int, i as int),
        decreases b - i,
    {
        r.push(v[i]);
        i = i + 1;
        assert(r@ =~= v@.subrange(a as int, i as int));
    }
    r
}

/// Reads the packages of a package report, in order.
pub fn parse_packages(text: &str) -> (r: Vec<Package>)
    ensures
        package_views(r@) == report(text@),
{
    let cs = chars_of(text);
    let lines = lines_of(&cs);
    let ghost ls = lines@.map_values(|l: Vec<char>| l@);
    let mut packs: Vec<Package> = Vec::new();
    let mut cur = blank_package();
    let mut i: usize = 0;
    assert(ls.take(0) =~= Seq::<Seq<char>>::empty());
    while i < lines.len()
        invariant
            ls == lines@.map_values(|l: Vec<char>| l@),
            ls == text_lines(text@),
            i <= lines@.len(),
            (package_views(packs@), package_view(cur)) == read_lines(ls.take(i as int)),
        decreases lines.len() - i,
    {
        assert(ls.take(i + 1).drop_last() =~= ls.take(i as int));
        assert(ls.take(i + 1).last() == lines@[i as int]@);
        read_line(&mut packs, &mut cur, &lines[i]);
        i = i + 1;
    }
    assert(ls.take(i as int) =~= ls);
    let ghost before = package_views(packs@);
    let ghost last = package_view(cur);
    packs.push(cur);
    assert(package_views(packs@) =~= before.push(last));
    packs
}


/// `s` with each ` -> ` (taken from the left, not overlapping) written as one space.
pub open spec fn arrows_to_spaces(s: Seq<char>) -> Seq<char>
    decreases s.len(),
{
    if s.len() == 0 {
        s
    } else if s.len() >= 4 && s.take(4) == " -> "@ {
        seq![' '] + arrows_to_spaces(s.skip(4))
    } else {
        seq![s[0]] + arrows_to_spaces(s.drop_first())
    }
}

/// The update that a line `name old -> new` gives, if it has that shape.
pub open spec fn update_line(line: Seq<char>) -> Option<(Seq<char>, Seq<char>, Seq<char>, ChangeType)> {
    let ws = words(arrows_to_spaces(line));
    if ws.len() == 3 {
        Some((ws[0], ws[1], ws[2], version_change(ws[1], ws[2])))
    } else {
        None
    }
}

/// The updates of a report, one for each line of that shape.
pub open spec fn update_report(lines: Seq<Seq<char>>) -> Seq<(Seq<char>, Seq<char>, Seq<char>, ChangeType)>
    decreases lines.len(),
{
    if lines.len() == 0 {
        seq![]
    } else {
        match update_line(lines.last()) {
            Some(u) => update_report(lines.drop_last()).push(u),
            None => update_report(lines.drop_last()),
        }
    }
}

pub open spec fn update_view(u: PackageUpdate) -> (Seq<char>, Seq<char>, Seq<char>, ChangeType) {
    (u.name@, u.current_version@, u.new_version@, u.change_type)
}

fn replace_arrows(v: &Vec<char>) -> (r: Vec<char>)
    ensures
        r@ == arrows_to_spaces(v@),
{
    let mut out: Vec<char> = Vec::new();
    let mut i: usize = 0;
    let n = v.len();
    let arrow = chars_of(" -> ");
    proof {
        reveal_strlit(" -> ");
    }
    assert(v@.skip(0) =~= v@);
    while i < n
        invariant
            n == v@.len(),
            i <= n,
            arrow@ == " -> "@,
            arrow@.len() == 4,
            arrows_to_spaces(v@) == out@ + arrows_to_spaces(v@.skip(i as int)),
        decreases n - i,
    {
        let ghost rest = v@.skip(i as int);
        let at = n - i >= 4 && v[i] == arrow[0] && v[i + 1] == arrow[1] && v[i + 2] == arrow[2] && v[i + 3] == arrow[3];
        proof {
            if n - i >= 4 {
                assert(at == (rest.take(4) =~= arrow@));
            }
        }
        if at {
            out.push(' ');
            proof {
                assert(rest.skip(4) =~= v@.skip(i + 4));
                assert(seq![' '] + arrows_to_spaces(rest.skip(4)) == arrows_to_spaces(rest));
            }
            i = i + 4;
        } else {
            out.push(v[i]);
            proof {
                assert(rest.drop_first() =~= v@.skip(i + 1));
                assert(seq![v@[i as int]] + arrows_to_spaces(rest.drop_first()) == arrows_to_spaces(rest));
            }
            i = i + 1;
        }
        proof {
            assert(out@ + arrows_to_spaces(v@.skip(i as int)) =~= arrows_to_spaces(v@));
        }
    }
    assert(v@.skip(n as int) =~= Seq::<char>::empty());
    assert(out@ + Seq::<char>::empty() =~= out@);
    out
}

/// Reads the pending updates: one for each line `name old -> new`, with the
/// change between the two versions.
pub fn parse_updates(text: &str) -> (r: Vec<PackageUpdate>)
    ensures
        r@.map_values(|u: PackageUpdate| update_view(u)) == update_report(text_lines(text@)),
{
    let cs = chars_of(text);
    let lines = lines_of(&cs);
    let ghost ls = lines@.map_values(|l: Vec<char>| l@);
    let mut out: Vec<PackageUpdate> = Vec::new();
    let mut i: usize = 0;
    assert(ls.take(0) =~= Seq::<Seq<char>>::empty());
    while i < lines.len()
        invariant
            ls == lines@.map_values(|l: Vec<char>| l@),
            i <= lines@.len(),
            out@.map_values(|u: PackageUpdate| update_view(u)) == update_report(ls.take(i as int)),
        decreases lines.len() - i,
    {
        assert(ls.take(i + 1).drop_last() =~= ls.take(i as int));
        assert(ls.take(i + 1).last() == lines@[i as int]@);
        let ghost before = out@.map_values(|u: PackageUpdate| update_view(u));
        let plain = replace_arrows(&lines[i]);
        let ws = all_words(&plain);
        if ws.len() == 3 {
            let change = change_between_texts(ws[1].as_str(), ws[2].as_str());
            let u = PackageUpdate {
                name: ws[0].clone(),
                current_version: ws[1].clone(),
                new_version: ws[2].clone(),
                change_type: change,
            };
            out.push(u);
            assert(out@.map_values(|u: PackageUpdate| update_view(u)) =~= before.push(update_view(u)));
        }
        i = i + 1;
    }
    assert(ls.take(i as int) =~= ls);
    out
}

/// The words of `v`.
fn all_words(v: &Vec<char>) -> (r: Vec<String>)
    ensures
        views(r@) == words(v@),
{
    let mut ws: Vec<Vec<char>> = Vec::new();
    let mut i: usize = 0;
    while i < v.len()
        invariant
            i <= v@.len(),
            ws@.map_values(|w: Vec<char>| w@) == words(v@.take(i as int)),
            i > 0 && !whitespace(v@[i - 1]) ==> ws@.len() > 0,
        decreases v.len() - i,
    {
        let c = v[i];
        let ghost pre = v@.take(i as int);
        assert(v@.take(i + 1).drop_last() =~= pre);
        let ghost before = ws@.map_values(|w: Vec<char>| w@);
        if is_whitespace(c) {
        } else if i > 0 && !is_whitespace(v[i - 1]) {
            assert(pre.last() == v@[i - 1]);
            let last = ws.len() - 1;
            let mut w = ws.remove(last);
            let ghost wv = w@;
            w.push(c);
            ws.push(w);
            assert(ws@.map_values(|w: Vec<char>| w@) =~= before.update(last as int, wv.push(c)));
        } else {
            let w = vec![c];
            assert(w@ =~= seq![c]);
            ws.push(w);
            assert(ws@.map_values(|w: Vec<char>| w@) =~= before.push(seq![c]));
        }
        i = i + 1;
    }
    assert(v@.take(i as int) =~= v@);
    let mut r: Vec<String> = Vec::new();
    let mut k: usize = 0;
    let ghost all = ws@.map_values(|w: Vec<char>| w@);
    while k < ws.len()
        invariant
            all == ws@.map_values(|w: Vec<char>| w@),
            k <= ws@.len(),
            r@.len() == k,
            forall|j: int| 0 <= j < k ==> #[trigger] r@[j]@ == all[j],
        decreases ws.len() - k,
    {
        r.push(string_of(&ws[k]));
        k = k + 1;
    }
    assert(views(r@) =~= all);
    r
}


/// The first entry of `g` for the package `pack`, or -1.
pub open spec fn entry_index(g: Seq<(Seq<char>, Seq<Seq<char>>)>, pack: Seq<char>) -> int
    decreases g.len(),
{
    if g.len() == 0 {
        -1
    } else if g[0].0 == pack {
        0
    } else if entry_index(g.drop_first(), pack) < 0 {
        -1
    } else {
        entry_index(g.drop_first(), pack) + 1
    }
}

/// The files of each package, packages in order of first appearance, from
/// lines `package path`.
pub open spec fn file_groups(lines: Seq<Seq<char>>) -> Seq<(Seq<char>, Seq<Seq<char>>)>
    decreases lines.len(),
{
    if lines.len() == 0 {
        seq![]
    } else {
        let g = file_groups(lines.drop_last());
        let line = lines.last();
        match after_first(line, ' ') {
            None => g,
            Some(path) => {
                let pack = before_first(line, ' ');
                let k = entry_index(g, pack);
                if k < 0 {
                    g.push((pack, seq![path]))
                } else {
                    g.update(k, (pack, g[k].1.push(path)))
                }
            },
        }
    }
}

/// No package has two entries.
pub open spec fn unique_packs(g: Seq<(Seq<char>, Seq<Seq<char>>)>) -> bool {
    forall|i: int, j: int| 0 <= i < g.len() && 0 <= j < g.len() && i != j ==> #[trigger] g[i].0 != #[trigger] g[j].0
}

pub open spec fn group_views(g: Seq<(String, Vec<String>)>) -> Seq<(Seq<char>, Seq<Seq<char>>)> {
    g.map_values(|e: (String, Vec<String>)| (e.0@, views(e.1@)))
}

proof fn lemma_entry_index(g: Seq<(Seq<char>, Seq<Seq<char>>)>, pack: Seq<char>, j: int)
    requires
        -1 <= j < g.len(),
        j >= 0 ==> g[j].0 == pack,
        forall|i: int| 0 <= i < g.len() && (j < 0 || i < j) ==> #[trigger] g[i].0 != pack,
    ensures
        entry_index(g, pack) == j,
    decreases g.len(),
{
    if g.len() > 0 && j != 0 {
        let t = g.drop_first();
        assert(g[0].0 != pack);
        assert forall|i: int| 0 <= i < t.len() && (j - 1 < 0 || i < j - 1) implies #[trigger] t[i].0 != pack by {
            assert(t[i] == g[i + 1]);
        }
        lemma_entry_index(t, pack, if j > 0 { j - 1 } else { -1 });
    }
}

/// Reads the files that each package provides, from lines `package path`.
pub fn parse_provides(text: &str) -> (r: Vec<(String, Vec<String>)>)
    ensures
        group_views(r@) == file_groups(text_lines(text@)),
        unique_packs(group_views(r@)),
{
    let cs = chars_of(text);
    let lines = lines_of(&cs);
    let ghost ls = lines@.map_values(|l: Vec<char>| l@);
    let mut groups: Vec<(String, Vec<String>)> = Vec::new();
    let mut i: usize = 0;
    assert(ls.take(0) =~= Seq::<Seq<char>>::empty());
    while i < lines.len()
        invariant
            ls == lines@.map_values(|l: Vec<char>| l@),
            i <= lines@.len(),
            group_views(groups@) == file_groups(ls.take(i as int)),
            unique_packs(group_views(groups@)),
        decreases lines.len() - i,
    {
        let line = &lines[i];
        assert(ls.take(i + 1).drop_last() =~= ls.take(i as int));
        assert(ls.take(i + 1).last() == line@);
        let ghost g = group_views(groups@);
        match index_of_char(line, ' ') {
            None => {},
            Some(p) => {
                let n = line.len();
                let pack = string_of(&slice_of(line, 0, p));
                let path = string_of(&slice_of(line, p + 1, n));
                assert(pack@ =~= before_first(line@, ' '));
                assert(path@ =~= after_first(line@, ' ').unwrap());
                let mut k: usize = 0;
                while k < groups.len() && groups[k].0 != pack
                    invariant
                        k <= groups@.len(),
                        g == group_views(groups@),
                        forall|j: int| 0 <= j < k ==> #[trigger] g[j].0 != pack@,
                    decreases groups.len() - k,
                {
                    k = k + 1;
                }
                if k < groups.len() {
                    proof {
                        lemma_entry_index(g, pack@, k as int);
                    }
                    let (name, mut files) = groups.remove(k);
                    let ghost fv = views(files@);
                    files.push(path);
                    assert(views(files@) =~= fv.push(after_first(line@, ' ').unwrap()));
                    groups.insert(k, (name, files));
                    assert(group_views(groups@) =~= g.update(k as int, (pack@, g[k as int].1.push(after_first(line@, ' ').unwrap()))));
                    assert(g[k as int].0 == pack@);
                    assert forall|a: int, b: int| 0 <= a < group_views(groups@).len() && 0 <= b < group_views(groups@).len() && a != b
                        implies #[trigger] group_views(groups@)[a].0 != #[trigger] group_views(groups@)[b].0 by {
                        assert(group_views(groups@)[a].0 == g[a].0);
                        assert(group_views(groups@)[b].0 == g[b].0);
                    }
                } else {
                    proof {
                        lemma_entry_index(g, pack@, -1);
                    }
                    let files = vec![path];
                    assert(views(files@) =~= seq![after_first(line@, ' ').unwrap()]);
                    groups.push((pack, files));
                    assert(group_views(groups@) =~= g.push((before_first(line@, ' '), seq![after_first(line@, ' ').unwrap()])));
                    assert forall|a: int, b: int| 0 <= a < group_views(groups@).len() && 0 <= b < group_views(groups@).len() && a != b
                        implies #[trigger] group_views(groups@)[a].0 != #[trigger] group_views(groups@)[b].0 by {
                        if a < g.len() {
                            assert(group_views(groups@)[a].0 == g[a].0);
                        }
                        if b < g.len() {
                            assert(group_views(groups@)[b].0 == g[b].0);
                        }
                    }
                }
            },
        }
        i = i + 1;
    }
    assert(ls.take(i as int) =~= ls);
    groups
}

} // verus!
