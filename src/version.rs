//! Package version strings (`epoch:major.minor.patch.rest-pkgver`) and the
//! magnitude of the change between two of them.
use vstd::prelude::*;
use crate::natural::{digits_value, all_digits};
use crate::text::{chars_of, string_of};

verus! {

/// The first position of `c` in `s`, or -1.
pub open spec fn index_of(s: Seq<char>, c: char) -> int
    decreases s.len(),
{
    if s.len() == 0 {
        -1
    } else if s[0] == c {
        0
    } else if index_of(s.drop_first(), c) < 0 {
        -1
    } else {
        index_of(s.drop_first(), c) + 1
    }
}

/// The last position of `c` in `s`, or -1.
pub open spec fn last_index_of(s: Seq<char>, c: char) -> int
    decreases s.len(),
{
    if s.len() == 0 {
        -1
    } else if s.last() == c {
        s.len() - 1
    } else {
        last_index_of(s.drop_last(), c)
    }
}

/// What `str::parse::<u32>` reads: an optional `+`, then one or more decimal
/// digits whose value fits in 32 bits.
pub open spec fn parse_u32(s: Seq<char>) -> Option<nat> {
    let d = if s.len() > 0 && s[0] == '+' {
        s.drop_first()
    } else {
        s
    };
    if d.len() > 0 && all_digits(d) && digits_value(d) <= u32::MAX {
        Some(digits_value(d))
    } else {
        None
    }
}

/// The part of `s` before the first `c` (all of `s` when there is none).
pub open spec fn before_first(s: Seq<char>, c: char) -> Seq<char> {
    if index_of(s, c) < 0 {
        s
    } else {
        s.take(index_of(s, c))
    }
}

/// The part of `s` after the first `c`, if there is one.
pub open spec fn after_first(s: Seq<char>, c: char) -> Option<Seq<char>> {
    if index_of(s, c) < 0 {
        None
    } else {
        Some(s.skip(index_of(s, c) + 1))
    }
}

/// The epoch and the rest: a leading field before `:` that reads as a
/// number is the epoch, and the rest is the next `:`-separated field;
/// otherwise the epoch is 0 and the rest is the whole string.
pub open spec fn split_epoch(s: Seq<char>) -> (nat, Seq<char>) {
    match parse_u32(before_first(s, ':')) {
        Some(e) => (e, match after_first(s, ':') {
            Some(t) => before_first(t, ':'),
            None => Seq::empty(),
        }),
        None => (0, s),
    }
}

/// The version and the package release: the part after the last `-` is the
/// release (0 when it does not read as a number).
pub open spec fn split_pkgver(s: Seq<char>) -> (Seq<char>, nat) {
    if last_index_of(s, '-') < 0 {
        (s, 0)
    } else {
        (s.take(last_index_of(s, '-')), match parse_u32(s.skip(last_index_of(s, '-') + 1)) {
            Some(n) => n,
            None => 0,
        })
    }
}

/// The `i`-th `.`-separated field of `s`, for `i` below 3; field 3 is all
/// that follows the third dot, dots included.
pub open spec fn dot_field(s: Seq<char>, i: nat) -> Seq<char>
    decreases i,
{
    if i == 0 {
        if i == 3 {
            s
        } else {
            before_first(s, '.')
        }
    } else {
        match after_first(s, '.') {
            Some(t) => if i == 3 {
                dot_rest(t, 2)
            } else {
                dot_field(t, (i - 1) as nat)
            },
            None => Seq::empty(),
        }
    }
}

/// All of `s` after `i` more dots.
pub open spec fn dot_rest(s: Seq<char>, i: nat) -> Seq<char>
    decreases i,
{
    if i == 0 {
        s
    } else {
        match after_first(s, '.') {
            Some(t) => dot_rest(t, (i - 1) as nat),
            None => Seq::empty(),
        }
    }
}

/// The change between the versions written `a` and `b`.
pub open spec fn version_change(a: Seq<char>, b: Seq<char>) -> ChangeType {
    let (ea, ra) = split_epoch(a);
    let (eb, rb) = split_epoch(b);
    let va = split_pkgver(ra).0;
    let vb = split_pkgver(rb).0;
    if ea != eb {
        ChangeType::Epoch
    } else if dot_field(va, 0) != dot_field(vb, 0) {
        ChangeType::Major
    } else if dot_field(va, 1) != dot_field(vb, 1) {
        ChangeType::Minor
    } else if dot_field(va, 2) != dot_field(vb, 2) {
        ChangeType::Patch
    } else if dot_field(va, 3) != dot_field(vb, 3) {
        ChangeType::Revision
    } else {
        ChangeType::Pkgver
    }
}

/// The change between two version strings.
pub fn change_between_texts(a: &str, b: &str) -> (r: ChangeType)
    ensures
        r == version_change(a@, b@),
{
    let va = Version::parse(a);
    let vb = Version::parse(b);
    va.change_type(&vb)
}

/// The magnitude of a version change, from smallest to largest.
#[derive(Clone, Copy, Debug, PartialEq, Eq, Hash, PartialOrd, Ord, Structural)]
pub enum ChangeType {
    /// Only the package release changed.
    Pkgver,
    /// Something after the third dot changed.
    Revision,
    Patch,
    Minor,
    Major,
    /// The epoch changed.
    Epoch,
}

pub open spec fn change_rank(c: ChangeType) -> int {
    match c {
        ChangeType::Pkgver => 0,
        ChangeType::Revision => 1,
        ChangeType::Patch => 2,
        ChangeType::Minor => 3,
        ChangeType::Major => 4,
        ChangeType::Epoch => 5,
    }
}

impl ChangeType {
    /// Whether this change is at least as large as `other`.
    pub fn at_least(&self, other: &ChangeType) -> (r: bool)
        ensures
            r == (change_rank(*self) >= change_rank(*other)),
    {
        self.rank() >= other.rank()
    }

    pub fn rank(&self) -> (r: u8)
        ensures
            r as int == change_rank(*self),
    {
        match self {
            ChangeType::Pkgver => 0,
            ChangeType::Revision => 1,
            ChangeType::Patch => 2,
            ChangeType::Minor => 3,
            ChangeType::Major => 4,
            ChangeType::Epoch => 5,
        }
    }

    /// The change's name.
    pub fn name(&self) -> (r: &'static str) {
        match self {
            ChangeType::Pkgver => "Pkgver",
            ChangeType::Revision => "Revision",
            ChangeType::Patch => "Patch",
            ChangeType::Minor => "Minor",
            ChangeType::Major => "Major",
            ChangeType::Epoch => "Epoch",
        }
    }
}

/// A parsed version: the epoch, the dotted fields and the package release.
#[derive(Debug)]
pub struct Version {
    pub raw: String,
    pub epoch: u32,
    pub(crate) major: String,
    pub(crate) minor: String,
    pub(crate) patch: String,
    pub(crate) revision: String,
    pub pkgver: u32,
}

impl Version {
    pub open(crate) spec fn major_view(&self) -> Seq<char> {
        self.major@
    }

    pub open(crate) spec fn minor_view(&self) -> Seq<char> {
        self.minor@
    }

    pub open(crate) spec fn patch_view(&self) -> Seq<char> {
        self.patch@
    }

    pub open(crate) spec fn revision_view(&self) -> Seq<char> {
        self.revision@
    }

    /// The largest part that differs between `a` and `b`.
    pub open(crate) spec fn change_between(a: Version, b: Version) -> ChangeType {
        if a.epoch != b.epoch {
            ChangeType::Epoch
        } else if a.major@ != b.major@ {
            ChangeType::Major
        } else if a.minor@ != b.minor@ {
            ChangeType::Minor
        } else if a.patch@ != b.patch@ {
            ChangeType::Patch
        } else if a.revision@ != b.revision@ {
            ChangeType::Revision
        } else {
            ChangeType::Pkgver
        }
    }

    /// The parts of a version string.
    pub open(crate) spec fn parsed(&self, s: Seq<char>) -> bool {
        let (e, rest) = split_epoch(s);
        let (v, p) = split_pkgver(rest);
        &&& self.raw@ == s
        &&& self.epoch as nat == e
        &&& self.pkgver as nat == p
        &&& self.major@ == dot_field(v, 0)
        &&& self.minor@ == dot_field(v, 1)
        &&& self.patch@ == dot_field(v, 2)
        &&& self.revision@ == dot_field(v, 3)
    }

    /// Reads a version string; this never fails, missing parts are empty
    /// or zero.
    pub fn parse(s: &str) -> (r: Version)
        ensures
            r.parsed(s@),
    {
        let cs = chars_of(s);
        let (epoch, rest) = epoch_of(&cs);
        let (ver, pkgver) = pkgver_of(&rest);
        let (major, t1) = split_first(&ver, '.');
        let (minor, t2) = split_first(&t1, '.');
        let (patch, t3) = split_first(&t2, '.');
        let revision = if index_of_exec(&t2, '.').is_some() { t3 } else { Vec::new() };
        proof {
            lemma_dot_fields(ver@, major@, t1@, minor@, t2@, patch@, t3@);
        }
        Version {
            raw: string_of(&cs),
            epoch,
            major: string_of(&major),
            minor: string_of(&minor),
            patch: string_of(&patch),
            revision: string_of(&revision),
            pkgver,
        }
    }

    /// The largest part that differs between two versions, looking at the
    /// epoch, then major, minor, patch and the rest; `Pkgver` when only the
    /// release (or nothing) differs.
    pub fn change_type(&self, other: &Version) -> (r: ChangeType)
        ensures
            r == Self::change_between(*self, *other),
    {
        if self.epoch != other.epoch {
            ChangeType::Epoch
        } else if self.major != other.major {
            ChangeType::Major
        } else if self.minor != other.minor {
            ChangeType::Minor
        } else if self.patch != other.patch {
            ChangeType::Patch
        } else if self.revision != other.revision {
            ChangeType::Revision
        } else {
            ChangeType::Pkgver
        }
    }
}

proof fn lemma_dot_fields(
    v: Seq<char>,
    major: Seq<char>,
    t1: Seq<char>,
    minor: Seq<char>,
    t2: Seq<char>,
    patch: Seq<char>,
    t3: Seq<char>,
)
    requires
        major == before_first(v, '.'),
        t1 == (match after_first(v, '.') { Some(t) => t, None => Seq::empty() }),
        minor == before_first(t1, '.'),
        t2 == (match after_first(t1, '.') { Some(t) => t, None => Seq::empty() }),
        patch == before_first(t2, '.'),
        t3 == (match after_first(t2, '.') { Some(t) => t, None => Seq::empty() }),
    ensures
        major == dot_field(v, 0),
        index_of(v, '.') >= 0 ==> minor == dot_field(v, 1),
        index_of(v, '.') < 0 ==> dot_field(v, 1) == Seq::<char>::empty() && minor == Seq::<char>::empty(),
        index_of(v, '.') >= 0 && index_of(t1, '.') >= 0 ==> patch == dot_field(v, 2),
        index_of(v, '.') < 0 || index_of(t1, '.') < 0 ==> dot_field(v, 2) == Seq::<char>::empty() && patch == Seq::<char>::empty(),
        index_of(v, '.') >= 0 && index_of(t1, '.') >= 0 && index_of(t2, '.') >= 0 ==> t3 == dot_field(v, 3),
        !(index_of(v, '.') >= 0 && index_of(t1, '.') >= 0 && index_of(t2, '.') >= 0) ==> dot_field(v, 3) == Seq::<char>::empty(),
{
    assert(dot_field(v, 0) == before_first(v, '.'));
    if index_of(v, '.') < 0 {
        assert(t1 == Seq::<char>::empty());
        assert(index_of(t1, '.') == -1);
        assert(before_first(t1, '.') == t1);
    } else {
        assert(dot_field(v, 1) == dot_field(t1, 0));
        if index_of(t1, '.') < 0 {
            assert(t2 == Seq::<char>::empty());
            assert(index_of(t2, '.') == -1);
            assert(dot_field(t1, 1) == Seq::<char>::empty());
        } else {
            assert(dot_field(v, 2) == dot_field(t1, 1));
            assert(dot_field(t1, 1) == dot_field(t2, 0));
            assert(dot_field(v, 3) == dot_rest(t1, 2));
            assert(dot_rest(t1, 2) == dot_rest(t2, 1));
            if index_of(t2, '.') >= 0 {
                assert(dot_rest(t2, 1) == dot_rest(t3, 0));
            }
        }
    }
}

pub proof fn lemma_index_of(s: Seq<char>, c: char, j: int)
    requires
        -1 <= j <= s.len(),
        j >= 0 ==> j < s.len() && s[j] == c,
        forall|i: int| 0 <= i < s.len() && (j < 0 || i < j) ==> #[trigger] s[i] != c,
    ensures
        index_of(s, c) == j,
    decreases s.len(),
{
    if s.len() > 0 && j != 0 {
        assert(s[0] != c);
        let t = s.drop_first();
        if j > 0 {
            assert forall|i: int| 0 <= i < t.len() && i < j - 1 implies #[trigger] t[i] != c by {
                assert(t[i] == s[i + 1]);
            }
            lemma_index_of(t, c, j - 1);
        } else {
            assert forall|i: int| 0 <= i < t.len() implies #[trigger] t[i] != c by {
                assert(t[i] == s[i + 1]);
            }
            lemma_index_of(t, c, -1);
        }
    }
}

proof fn lemma_last_index_of(s: Seq<char>, c: char, j: int)
    requires
        -1 <= j < s.len(),
        j >= 0 ==> s[j] == c,
        forall|i: int| j < i < s.len() ==> #[trigger] s[i] != c,
    ensures
        last_index_of(s, c) == j,
    decreases s.len(),
{
    if s.len() > 0 && j != s.len() - 1 {
        assert(s[s.len() - 1] != c);
        let t = s.drop_last();
        assert forall|i: int| j < i < t.len() implies #[trigger] t[i] != c by {
            assert(t[i] == s[i]);
        }
        lemma_last_index_of(t, c, j);
    }
}

fn index_of_exec(v: &Vec<char>, c: char) -> (r: Option<usize>)
    ensures
        r.is_none() == (index_of(v@, c) < 0),
        r.is_some() ==> r.unwrap() as int == index_of(v@, c) && r.unwrap() < v@.len(),
{
    let mut i: usize = 0;
    while i < v.len()
        invariant
            i <= v@.len(),
            forall|k: int| 0 <= k < i ==> #[trigger] v@[k] != c,
        decreases v.len() - i,
    {
        if v[i] == c {
            proof {
                lemma_index_of(v@, c, i as int);
            }
            return Some(i);
        }
        i = i + 1;
    }
    proof {
        lemma_index_of(v@, c, -1);
    }
    None
}

fn last_index_of_exec(v: &Vec<char>, c: char) -> (r: Option<usize>)
    ensures
        r.is_none() == (last_index_of(v@, c) < 0),
        r.is_some() ==> r.unwrap() as int == last_index_of(v@, c) && r.unwrap() < v@.len(),
{
    let mut i: usize = v.len();
    while i > 0
        invariant
            i <= v@.len(),
            forall|k: int| i <= k < v@.len() ==> #[trigger] v@[k] != c,
        decreases i,
    {
        if v[i - 1] == c {
            proof {
                lemma_last_index_of(v@, c, i - 1);
            }
            return Some(i - 1);
        }
        i = i - 1;
    }
    proof {
        lemma_last_index_of(v@, c, -1);
    }
    None
}

/// The characters of `v` from `a` up to `b`.
fn slice(v: &Vec<char>, a: usize, b: usize) -> (r: Vec<char>)
    requires
        a <= b <= v@.len(),
    ensures
        r@ == v@.subrange(a as int, b as int),
{
    let mut r: Vec<char> = Vec::new();
    let mut i: usize = a;
    while i < b
        invariant
            a <= i <= b,
            b <= v@.len(),
            r@ == v@.subrange(a as int, i as int),
        decreases b - i,
    {
        r.push(v[i]);
        i = i + 1;
        assert(r@ =~= v@.subrange(a as int, i as int));
    }
    r
}

/// The part before the first `c`, and the part after it (empty when there
/// is no `c`).
fn split_first(v: &Vec<char>, c: char) -> (r: (Vec<char>, Vec<char>))
    ensures
        r.0@ == before_first(v@, c),
        r.1@ == (match after_first(v@, c) { Some(t) => t, None => Seq::empty() }),
{
    match index_of_exec(v, c) {
        Some(p) => {
            let n = v.len();
            (slice(v, 0, p), slice(v, p + 1, n))
        },
        None => (slice(v, 0, v.len()), Vec::new()),
    }
}

/// Reads a 32-bit unsigned decimal as `str::parse::<u32>` does.
fn parse_u32_exec(v: &Vec<char>) -> (r: Option<u32>)
    ensures
        r.is_none() == parse_u32(v@).is_none(),
        r.is_some() ==> r.unwrap() as nat == parse_u32(v@).unwrap(),
{
    let start: usize = if v.len() > 0 && v[0] == '+' { 1 } else { 0 };
    let d = slice(v, start, v.len());
    assert(start == 1 ==> d@ =~= v@.drop_first());
    assert(start == 0 ==> d@ =~= v@);
    assert(parse_u32(v@) == (if d@.len() > 0 && all_digits(d@) && digits_value(d@) <= u32::MAX {
        Some(digits_value(d@))
    } else {
        None
    }));
    if d.len() == 0 {
        return None;
    }
    let mut n: u64 = 0;
    let mut i: usize = 0;
    while i < d.len()
        invariant
            i <= d@.len(),
            all_digits(d@.take(i as int)),
            n as nat == digits_value(d@.take(i as int)),
            n <= u32::MAX,
            d@.len() > 0,
            parse_u32(v@) == (if d@.len() > 0 && all_digits(d@) && digits_value(d@) <= u32::MAX {
                Some(digits_value(d@))
            } else {
                None
            }),
        decreases d.len() - i,
    {
        let c = d[i];
        assert(d@.take(i + 1).drop_last() =~= d@.take(i as int));
        if !('0' <= c && c <= '9') {
            assert(!crate::natural::is_digit(d@[i as int]));
            assert(!all_digits(d@));
            assert(parse_u32(v@).is_none());
            return None;
        }
        n = n * 10 + (c as u32 - '0' as u32) as u64;
        i = i + 1;
        assert(all_digits(d@.take(i as int)));
        if n > 4294967295 {
            proof {
                lemma_digits_grow(d@, i as int);
            }
            assert(parse_u32(v@).is_none());
            return None;
        }
    }
    assert(d@.take(i as int) =~= d@);
    Some(n as u32)
}

/// Appending digits never makes the value smaller.
proof fn lemma_digits_grow(s: Seq<char>, k: int)
    requires
        0 <= k <= s.len(),
        all_digits(s.take(k)),
    ensures
        all_digits(s) ==> digits_value(s.take(k)) <= digits_value(s),
    decreases s.len() - k,
{
    if k < s.len() && all_digits(s) {
        assert(all_digits(s.take(k + 1)));
        lemma_digits_grow(s, k + 1);
        assert(s.take(k + 1).drop_last() =~= s.take(k));
    }
    if k == s.len() {
        assert(s.take(k) =~= s);
    }
}

fn epoch_of(s: &Vec<char>) -> (r: (u32, Vec<char>))
    ensures
        r.0 as nat == split_epoch(s@).0,
        r.1@ == split_epoch(s@).1,
{
    let (first, after) = split_first(s, ':');
    match parse_u32_exec(&first) {
        Some(e) => {
            let (second, _) = split_first(&after, ':');
            let has = index_of_exec(s, ':').is_some();
            if has {
                (e, second)
            } else {
                (e, Vec::new())
            }
        },
        None => (0, slice(s, 0, s.len())),
    }
}

fn pkgver_of(s: &Vec<char>) -> (r: (Vec<char>, u32))
    ensures
        r.0@ == split_pkgver(s@).0,
        r.1 as nat == split_pkgver(s@).1,
{
    match last_index_of_exec(s, '-') {
        Some(p) => {
            let n = s.len();
            let tail = slice(s, p + 1, n);
            let n = match parse_u32_exec(&tail) {
                Some(n) => n,
                None => 0,
            };
            (slice(s, 0, p), n)
        },
        None => (slice(s, 0, s.len()), 0),
    }
}

} // verus!
