//! # Anachro ICD
//!
//! The Interface Control Document of the Anachro protocol: the types that
//! clients (components) and servers (arbitrators/brokers) exchange, the
//! fixed-capacity strings they are built from, and the rule by which a
//! subscription topic matches a published path.

use vstd::prelude::*;
use vstd::string::StrSliceExecFns;
use vstd::string::StringSliceAdditionalSpecFns;

pub mod arbitrator;
pub mod component;

verus! {

#[verifier::external_type_specification]
#[verifier::external_body]
#[verifier::reject_recursive_types(T)]
pub struct ExHeaplessVec<T, const N: usize>(heapless::Vec<T, N>);

#[verifier::external_type_specification]
#[verifier::external_body]
pub struct ExHeaplessString<const N: usize>(heapless::String<N>);

/// The maximum length, in bytes, of an owned Pub/Sub path
pub const MAX_PATH_LEN: usize = 127;

/// The maximum length, in bytes, of an owned device name
pub const MAX_NAME_LEN: usize = 32;

/// The number of UTF-8 bytes that encode a sequence of characters
pub open spec fn utf8_len(chars: Seq<char>) -> nat {
    vstd::utf8::encode_utf8(chars).len()
}

/// The characters held by a path-sized `heapless::String`
pub uninterp spec fn path_buf_chars(s: heapless::String<127>) -> Seq<char>;

/// The characters held by a name-sized `heapless::String`
pub uninterp spec fn name_buf_chars(s: heapless::String<32>) -> Seq<char>;

/// `<heapless::String<127> as FromStr>::from_str`: copies the input when its
/// UTF-8 encoding fits in 127 bytes (`push_str` checks `len + other.len() > capacity`),
/// and fails otherwise.
#[verifier::external_body]
fn path_buf_from_str(input: &str) -> (r: Option<heapless::String<127>>)
    ensures
        r is Some <==> input.spec_bytes().len() <= 127,
        r matches Some(s) ==> path_buf_chars(s) == input@,
{
    core::str::FromStr::from_str(input).ok()
}

/// `heapless::String<127>::as_str`: the stored characters, whose encoding never
/// exceeds the capacity of the string.
#[verifier::external_body]
fn path_buf_as_str(s: &heapless::String<127>) -> (r: &str)
    ensures
        r@ == path_buf_chars(*s),
        r.spec_bytes().len() <= 127,
{
    s.as_str()
}

/// `<heapless::String<32> as FromStr>::from_str`: copies the input when its
/// UTF-8 encoding fits in 32 bytes, and fails otherwise.
#[verifier::external_body]
fn name_buf_from_str(input: &str) -> (r: Option<heapless::String<32>>)
    ensures
        r is Some <==> input.spec_bytes().len() <= 32,
        r matches Some(s) ==> name_buf_chars(s) == input@,
{
    core::str::FromStr::from_str(input).ok()
}

/// `heapless::String<32>::as_str`: the stored characters, whose encoding never
/// exceeds the capacity of the string.
#[verifier::external_body]
fn name_buf_as_str(s: &heapless::String<32>) -> (r: &str)
    ensures
        r@ == name_buf_chars(*s),
        r.spec_bytes().len() <= 32,
{
    s.as_str()
}

/// A fixed-capacity owned string, as held by the `Owned` variant of a
/// [`ManagedString`].
pub trait StrBuf: Sized {
    /// The capacity, in bytes
    spec fn capacity() -> nat;

    /// The characters held
    spec fn chars(&self) -> Seq<char>;

    /// Copy `input`, if it fits
    fn try_copy(input: &str) -> (r: Option<Self>)
        ensures
            r is Some <==> input.spec_bytes().len() <= Self::capacity(),
            r matches Some(s) ==> s.chars() == input@;

    /// Borrow the held characters
    fn as_str(&self) -> (r: &str)
        ensures
            r@ == self.chars(),
            r.spec_bytes().len() <= Self::capacity();
}

impl StrBuf for heapless::String<127> {
    open spec fn capacity() -> nat {
        127
    }

    open spec fn chars(&self) -> Seq<char> {
        path_buf_chars(*self)
    }

    fn try_copy(input: &str) -> (r: Option<Self>) {
        path_buf_from_str(input)
    }

    fn as_str(&self) -> (r: &str) {
        path_buf_as_str(self)
    }
}

impl StrBuf for heapless::String<32> {
    open spec fn capacity() -> nat {
        32
    }

    open spec fn chars(&self) -> Seq<char> {
        name_buf_chars(*self)
    }

    fn try_copy(input: &str) -> (r: Option<Self>) {
        name_buf_from_str(input)
    }

    fn as_str(&self) -> (r: &str) {
        name_buf_as_str(self)
    }
}

/// A borrowed or owned string
///
/// Basically like CoW, but with a fixed-capacity owned string
#[derive(Debug, Eq, PartialEq, Clone)]
pub enum ManagedString<'a, S> {
    Owned(S),
    Borrow(&'a str),
}

impl<'a, S: StrBuf> ManagedString<'a, S> {
    /// The characters of the string, whether owned or borrowed
    pub open spec fn chars(&self) -> Seq<char> {
        match self {
            ManagedString::Owned(s) => s.chars(),
            ManagedString::Borrow(s) => s@,
        }
    }

    /// Obtain self as a string slice
    pub fn as_str(&self) -> (r: &str)
        ensures
            r@ == self.chars(),
            self is Owned ==> r.spec_bytes().len() <= S::capacity(),
            self matches ManagedString::Borrow(b) ==> r.spec_bytes() == b.spec_bytes(),
            r.spec_bytes().len() == utf8_len(self.chars()),
    {
        match self {
            ManagedString::Owned(o) => o.as_str(),
            ManagedString::Borrow(s) => s,
        }
    }

    /// Borrow the contents of self
    pub fn as_borrowed(&'a self) -> (r: ManagedString<'a, S>)
        ensures
            r is Borrow,
            r.chars() == self.chars(),
    {
        ManagedString::Borrow(self.as_str())
    }

    /// Attempt to create an Owned string from a given str
    ///
    /// Fails if the owned string is not large enough to contain this slice
    pub fn try_from_str(input: &str) -> (r: Result<ManagedString<'static, S>, ()>)
        ensures
            r is Ok <==> input.spec_bytes().len() <= S::capacity(),
            r matches Ok(m) ==> m is Owned && m.chars() == input@,
    {
        match S::try_copy(input) {
            Some(s) => Ok(ManagedString::Owned(s)),
            None => Err(()),
        }
    }

    /// Create a Borrowed string from a given str
    pub fn borrow_from_str<'i>(input: &'i str) -> (r: ManagedString<'i, S>)
        ensures
            r == ManagedString::<'i, S>::Borrow(input),
            r.chars() == input@,
    {
        ManagedString::Borrow(input)
    }

    /// Attempt to convert to an Owned string from the current state
    ///
    /// Fails if the owned string is not large enough to contain this slice;
    /// a string that is already owned always fits.
    pub fn try_to_owned(&self) -> (r: Result<ManagedString<'static, S>, ()>)
        ensures
            r is Ok <==> utf8_len(self.chars()) <= S::capacity(),
            self is Owned ==> r is Ok,
            self matches ManagedString::Borrow(b) ==> (r is Ok <==> b.spec_bytes().len()
                <= S::capacity()),
            r matches Ok(m) ==> m is Owned && m.chars() == self.chars(),
    {
        ManagedString::try_from_str(self.as_str())
    }

    /// A copy of this string with the same variant and the same characters
    pub fn duplicate(&self) -> (r: ManagedString<'a, S>)
        ensures
            r.chars() == self.chars(),
            self is Owned <==> r is Owned,
            self matches ManagedString::Borrow(b) ==> r == ManagedString::<'a, S>::Borrow(b),
    {
        match self {
            ManagedString::Owned(o) => {
                let copy = S::try_copy(o.as_str());
                ManagedString::Owned(copy.unwrap())
            },
            ManagedString::Borrow(s) => ManagedString::Borrow(s),
        }
    }
}

/// A Pub/Sub Path as a Managed String
pub type Path<'a> = ManagedString<'a, heapless::String<127>>;

/// A device name as a Managed String
pub type Name<'a> = ManagedString<'a, heapless::String<32>>;

/// The abstract form of a [`PubSubPath`]
pub enum PathView {
    Long(Seq<char>),
    Short(u16),
}

/// Publish/Subscribe Path - Short or Long
#[derive(Debug, Eq, PartialEq, Clone)]
pub enum PubSubPath<'a> {
    /// A long form, UTF-8 Path
    Long(Path<'a>),

    /// A short form, 'memoized' path
    ///
    /// Pre-registered with the server
    Short(u16),
}

impl<'a> PubSubPath<'a> {
    /// The path, abstractly
    pub open spec fn view(&self) -> PathView {
        match self {
            PubSubPath::Long(p) => PathView::Long(p.chars()),
            PubSubPath::Short(s) => PathView::Short(*s),
        }
    }

    /// A copy of this path with the same variant and contents
    pub fn duplicate(&self) -> (r: PubSubPath<'a>)
        ensures
            r.view() == self.view(),
            self matches PubSubPath::Long(m) ==> (r matches PubSubPath::Long(n) && (m is Owned
                <==> n is Owned)),
    {
        match self {
            PubSubPath::Long(p) => PubSubPath::Long(p.duplicate()),
            PubSubPath::Short(s) => PubSubPath::Short(*s),
        }
    }
}

/// Device version - SemVer
#[derive(Debug, Eq, PartialEq, Clone, Copy, Structural)]
pub struct Version {
    /// Major Semver Version
    pub major: u8,
    /// Minor Semver Version
    pub minor: u8,
    /// Trivial Semver Version
    pub trivial: u8,
    /// Misc Version
    ///
    /// Could be build number, etc.
    pub misc: u8,
}

/// A UUID as a block of 16 bytes
#[derive(Debug, Eq, PartialEq, Clone, Copy, Hash)]
pub struct Uuid([u8; 16]);

impl Uuid {
    /// The sixteen bytes of the UUID
    pub closed spec fn view(&self) -> Seq<u8> {
        self.0@
    }

    /// A UUID holds sixteen bytes
    pub proof fn lemma_len(&self)
        ensures
            self.view().len() == 16,
    {
    }

    /// Create a new UUID from an array of bytes
    pub fn from_bytes(by: [u8; 16]) -> (r: Self)
        ensures
            r.view() == by@,
    {
        Uuid(by)
    }

    /// Obtain the UUID contents as a borrowed array of bytes
    pub fn as_bytes(&self) -> (r: &[u8; 16])
        ensures
            r@ == self.view(),
    {
        &self.0
    }

    /// Obtain the UUID contents as a slice of bytes
    pub fn as_slice(&self) -> (r: &[u8])
        ensures
            r@ == self.view(),
    {
        self.0.as_slice()
    }

    /// Do the two UUIDs hold the same bytes?
    pub fn same_as(&self, other: &Uuid) -> (r: bool)
        ensures
            r == (self.view() == other.view()),
    {
        let mut i: usize = 0;
        while i < 16
            invariant
                i <= 16,
                self.0@.len() == 16,
                other.0@.len() == 16,
                forall|j: int| 0 <= j < i ==> self.0@[j] == other.0@[j],
            decreases 16 - i,
        {
            if self.0[i] != other.0[i] {
                return false;
            }
            i = i + 1;
        }
        proof {
            assert(self.0@ =~= other.0@);
        }
        true
    }
}

// =====================================================================
// Topic matching
// =====================================================================

/// The segments of a path, split at each '/'
///
/// As `str::split("/")`: `"a//b"` has the segments `"a"`, `""`, `"b"`.
pub open spec fn split_segments(s: Seq<char>) -> Seq<Seq<char>>
    decreases s.len(),
{
    if s.len() == 0 {
        seq![Seq::<char>::empty()]
    } else {
        let r = split_segments(s.drop_last());
        if s.last() == '/' {
            r.push(Seq::<char>::empty())
        } else {
            r.update(r.len() - 1, r.last().push(s.last()))
        }
    }
}

/// Splitting at '/' always gives at least one segment
pub proof fn lemma_split_nonempty(s: Seq<char>)
    ensures
        split_segments(s).len() >= 1,
    decreases s.len(),
{
    if s.len() > 0 {
        lemma_split_nonempty(s.drop_last());
    }
}

/// Do the subscription segments match the publish segments?
///
/// A `#` segment matches any remainder, a `+` segment matches any single
/// segment, and any other segment matches only itself.
pub open spec fn segments_match(sub: Seq<Seq<char>>, publ: Seq<Seq<char>>) -> bool
    decreases sub.len(),
{
    if sub.len() == 0 {
        publ.len() == 0
    } else if publ.len() == 0 {
        false
    } else if sub[0] == seq!['#'] {
        true
    } else if sub[0] == seq!['+'] || sub[0] == publ[0] {
        segments_match(sub.drop_first(), publ.drop_first())
    } else {
        false
    }
}

/// Does the subscription topic `subscr` match the published path `publ`?
///
/// Empty topics or paths never match.
pub open spec fn topic_matches(subscr: Seq<char>, publ: Seq<char>) -> bool {
    subscr.len() > 0 && publ.len() > 0 && segments_match(
        split_segments(subscr),
        split_segments(publ),
    )
}


proof fn lemma_segments_match_self(x: Seq<Seq<char>>)
    ensures
        segments_match(x, x),
    decreases x.len(),
{
    if x.len() > 0 {
        lemma_segments_match_self(x.drop_first());
    }
}

/// Every non-empty path matches itself as a subscription topic.
pub proof fn lemma_topic_matches_itself(s: Seq<char>)
    requires
        s.len() > 0,
    ensures
        topic_matches(s, s),
{
    lemma_segments_match_self(split_segments(s));
}

/// The topic `#` matches every non-empty path.
pub proof fn lemma_hash_matches_everything(p: Seq<char>)
    requires
        p.len() > 0,
    ensures
        topic_matches(seq!['#'], p),
{
    let h = seq!['#'];
    assert(h.drop_last() =~= Seq::<char>::empty());
    assert(split_segments(h.drop_last()) =~= seq![Seq::<char>::empty()]);
    assert(split_segments(h) =~= seq![seq!['#']]);
    lemma_split_nonempty(p);
}

/// The segments joined again, with a '/' between each two
pub open spec fn join_segments(segs: Seq<Seq<char>>) -> Seq<char>
    decreases segs.len(),
{
    if segs.len() == 0 {
        Seq::empty()
    } else if segs.len() == 1 {
        segs[0]
    } else {
        join_segments(segs.drop_last()) + seq!['/'] + segs.last()
    }
}

proof fn lemma_join_grow_last(r: Seq<Seq<char>>, c: char)
    requires
        r.len() >= 1,
    ensures
        join_segments(r.update(r.len() - 1, r.last().push(c))) == join_segments(r).push(c),
{
    let u = r.update(r.len() - 1, r.last().push(c));
    if r.len() == 1 {
        assert(u[0] == r[0].push(c));
    } else {
        assert(u.drop_last() =~= r.drop_last());
        assert(u.last() == r.last().push(c));
        assert(join_segments(u) =~= join_segments(r).push(c));
    }
}

/// Splitting at '/' loses nothing: joining the segments gives the path back
pub proof fn lemma_join_split(s: Seq<char>)
    ensures
        join_segments(split_segments(s)) == s,
    decreases s.len(),
{
    if s.len() > 0 {
        let t = s.drop_last();
        lemma_join_split(t);
        lemma_split_nonempty(t);
        let r = split_segments(t);
        if s.last() == '/' {
            let u = r.push(Seq::<char>::empty());
            assert(u.drop_last() =~= r);
            assert(join_segments(u) =~= t.push('/'));
        } else {
            lemma_join_grow_last(r, s.last());
        }
        assert(t.push(s.last()) =~= s);
    }
}

/// Every character of every segment is a character of the path
proof fn lemma_split_chars(s: Seq<char>)
    ensures
        forall|i: int, j: int|
            0 <= i < split_segments(s).len() && 0 <= j < split_segments(s)[i].len() ==> s.contains(
                #[trigger] split_segments(s)[i][j],
            ),
    decreases s.len(),
{
    if s.len() > 0 {
        let t = s.drop_last();
        lemma_split_chars(t);
        lemma_split_nonempty(t);
        let r = split_segments(t);
        let sp = split_segments(s);
        assert forall|i: int, j: int| 0 <= i < sp.len() && 0 <= j < sp[i].len() implies s.contains(
            #[trigger] sp[i][j],
        ) by {
            if i < r.len() && (s.last() == '/' || i < r.len() - 1) {
                assert(sp[i] == r[i]);
                assert(t.contains(r[i][j]));
                let k = choose|k: int| 0 <= k < t.len() && t[k] == r[i][j];
                assert(s[k] == t[k]);
            } else if s.last() != '/' && i == r.len() - 1 {
                assert(sp[i] == r.last().push(s.last()));
                if j < r.last().len() {
                    assert(sp[i][j] == r[i][j]);
                    assert(t.contains(r[i][j]));
                    let k = choose|k: int| 0 <= k < t.len() && t[k] == r[i][j];
                    assert(s[k] == t[k]);
                } else {
                    assert(sp[i][j] == s[s.len() - 1]);
                }
            }
        }
    }
}

/// A path has a single segment exactly when it holds no '/'
proof fn lemma_single_segment(s: Seq<char>)
    ensures
        split_segments(s).len() == 1 <==> !s.contains('/'),
    decreases s.len(),
{
    if s.len() > 0 {
        let t = s.drop_last();
        lemma_single_segment(t);
        lemma_split_nonempty(t);
        if s.last() == '/' {
            assert(s[s.len() - 1] == '/');
        } else {
            if t.contains('/') {
                let k = choose|k: int| 0 <= k < t.len() && t[k] == '/';
                assert(s[k] == '/');
            }
            if s.contains('/') {
                let k = choose|k: int| 0 <= k < s.len() && s[k] == '/';
                assert(t[k] == '/');
            }
        }
    }
}

/// Segment lists that hold no wildcard segment match exactly when equal
proof fn lemma_literal_segments(sub: Seq<Seq<char>>, publ: Seq<Seq<char>>)
    requires
        forall|i: int| 0 <= i < sub.len() ==> #[trigger] sub[i] != seq!['#'] && sub[i] != seq!['+'],
    ensures
        segments_match(sub, publ) <==> sub == publ,
    decreases sub.len(),
{
    if sub.len() == 0 {
        if publ.len() == 0 {
            assert(sub =~= publ);
        }
    } else if publ.len() > 0 {
        let a = sub.drop_first();
        let b = publ.drop_first();
        assert forall|i: int| 0 <= i < a.len() implies #[trigger] a[i] != seq!['#'] && a[i] != seq!['+'] by {
            assert(a[i] == sub[i + 1]);
        }
        assert(sub[0] != seq!['#'] && sub[0] != seq!['+']);
        lemma_literal_segments(a, b);
        if sub == publ {
            assert(a =~= b);
        }
        if sub[0] == publ[0] && a == b {
            assert forall|i: int| 0 <= i < sub.len() implies sub[i] == publ[i] by {
                if i > 0 {
                    assert(sub[i] == a[i - 1] && publ[i] == b[i - 1]);
                }
            }
            assert(sub =~= publ);
        }
    }
}

/// A topic without wildcards matches exactly the path equal to it: a
/// segment that is neither '+' nor '#' matches only an equal segment, so
/// for instance "a/b" does not match "a/bc".
pub proof fn lemma_literal_topic_matches_only_itself(subscr: Seq<char>, publ: Seq<char>)
    requires
        !subscr.contains('+'),
        !subscr.contains('#'),
    ensures
        topic_matches(subscr, publ) <==> (subscr.len() > 0 && subscr == publ),
{
    let ss = split_segments(subscr);
    lemma_split_chars(subscr);
    assert forall|i: int| 0 <= i < ss.len() implies #[trigger] ss[i] != seq!['#'] && ss[i]
        != seq!['+'] by {
        if ss[i] == seq!['#'] || ss[i] == seq!['+'] {
            assert(subscr.contains(ss[i][0]));
        }
    }
    lemma_literal_segments(ss, split_segments(publ));
    lemma_join_split(subscr);
    lemma_join_split(publ);
}

/// The topic '+' matches exactly the non-empty paths of one segment
pub proof fn lemma_plus_matches_one_segment(publ: Seq<char>)
    ensures
        topic_matches(seq!['+'], publ) <==> (publ.len() > 0 && !publ.contains('/')),
{
    let h = seq!['+'];
    assert(h.drop_last() =~= Seq::<char>::empty());
    assert(split_segments(h.drop_last()) =~= seq![Seq::<char>::empty()]);
    assert(split_segments(h) =~= seq![seq!['+']]);
    assert(seq!['+'] != seq!['#']) by {
        assert(seq!['+'][0] != seq!['#'][0]);
    }
    lemma_split_nonempty(publ);
    lemma_single_segment(publ);
    let sp = split_segments(publ);
    assert(segments_match(seq![seq!['+']], sp) == segments_match(
        seq![seq!['+']].drop_first(),
        sp.drop_first(),
    ));
    assert(seq![seq!['+']].drop_first() =~= Seq::<Seq<char>>::empty());
}

/// A path without '/' is a single segment
proof fn lemma_split_no_slash(x: Seq<char>)
    requires
        !x.contains('/'),
    ensures
        split_segments(x) == seq![x],
{
    lemma_single_segment(x);
    lemma_join_split(x);
    assert(split_segments(x) =~= seq![x]);
}

/// Splitting `x/y`, where `x` holds no '/', gives `x` followed by the
/// segments of `y`
proof fn lemma_split_concat(x: Seq<char>, y: Seq<char>)
    requires
        !x.contains('/'),
    ensures
        split_segments(x + seq!['/'] + y) == seq![x] + split_segments(y),
    decreases y.len(),
{
    let xs = x + seq!['/'];
    if y.len() == 0 {
        lemma_split_no_slash(x);
        assert(xs + y =~= xs);
        assert(xs.drop_last() =~= x);
        assert(split_segments(xs) =~= seq![x] + split_segments(y));
    } else {
        let y1 = y.drop_last();
        lemma_split_concat(x, y1);
        lemma_split_nonempty(y1);
        assert((xs + y).drop_last() =~= xs + y1);
        assert((xs + y).last() == y.last());
        let r = split_segments(y1);
        if y.last() == '/' {
            assert(split_segments(xs + y) =~= seq![x] + split_segments(y));
        } else {
            assert((seq![x] + r).update((seq![x] + r).len() - 1, (seq![x] + r).last().push(y.last()))
                =~= seq![x] + r.update(r.len() - 1, r.last().push(y.last())));
            assert(split_segments(xs + y) =~= seq![x] + split_segments(y));
        }
    }
}

/// Matching goes segment by segment: for a topic `x/y` and a path `u/v`
/// whose first segments `x` and `u` hold no '/', a first segment '#'
/// matches whatever follows, and otherwise the first segments must match
/// (`+` matches any segment, any other segment only an equal one) and so
/// must the rests.
pub proof fn lemma_match_first_segment(x: Seq<char>, y: Seq<char>, u: Seq<char>, v: Seq<char>)
    requires
        !x.contains('/'),
        !u.contains('/'),
        y.len() > 0,
        v.len() > 0,
    ensures
        topic_matches(x + seq!['/'] + y, u + seq!['/'] + v) <==> (x == seq!['#'] || ((x
            == seq!['+'] || x == u) && topic_matches(y, v))),
{
    lemma_split_concat(x, y);
    lemma_split_concat(u, v);
    let sa = seq![x] + split_segments(y);
    let sb = seq![u] + split_segments(v);
    assert(sa[0] == x && sb[0] == u);
    assert(sa.drop_first() =~= split_segments(y));
    assert(sb.drop_first() =~= split_segments(v));
    assert((x + seq!['/'] + y).len() > 0 && (u + seq!['/'] + v).len() > 0);
}

/// An empty topic matches nothing, and nothing matches an empty path.
pub proof fn lemma_empty_matches_nothing(s: Seq<char>)
    ensures
        !topic_matches(Seq::<char>::empty(), s),
        !topic_matches(s, Seq::<char>::empty()),
{
}

/// The characters of a string slice
pub fn str_to_chars(s: &str) -> (r: Vec<char>)
    ensures
        r@ == s@,
{
    let n = s.unicode_len();
    let mut v: Vec<char> = Vec::new();
    let mut i: usize = 0;
    while i < n
        invariant
            n == s@.len(),
            i <= n,
            v@ == s@.subrange(0, i as int),
        decreases n - i,
    {
        let c = s.get_char(i);
        v.push(c);
        i = i + 1;
        proof {
            assert(v@ =~= s@.subrange(0, i as int));
        }
    }
    proof {
        assert(v@ =~= s@);
    }
    v
}

/// Are the two character sequences equal?
pub fn chars_equal(a: &Vec<char>, b: &Vec<char>) -> (r: bool)
    ensures
        r == (a@ == b@),
{
    if a.len() != b.len() {
        return false;
    }
    let mut i: usize = 0;
    while i < a.len()
        invariant
            a@.len() == b@.len(),
            i <= a@.len(),
            forall|j: int| 0 <= j < i ==> a@[j] == b@[j],
        decreases a@.len() - i,
    {
        if a[i] != b[i] {
            return false;
        }
        i = i + 1;
    }
    proof {
        assert(a@ =~= b@);
    }
    true
}

/// Do the two string slices hold the same characters?
pub fn str_equal(a: &str, b: &str) -> (r: bool)
    ensures
        r == (a@ == b@),
{
    let av = str_to_chars(a);
    let bv = str_to_chars(b);
    chars_equal(&av, &bv)
}

/// Does the string slice contain the character?
pub fn str_contains(s: &str, c: char) -> (r: bool)
    ensures
        r == s@.contains(c),
{
    let v = str_to_chars(s);
    let mut i: usize = 0;
    while i < v.len()
        invariant
            v@ == s@,
            i <= v@.len(),
            forall|j: int| 0 <= j < i ==> v@[j] != c,
        decreases v@.len() - i,
    {
        if v[i] == c {
            return true;
        }
        i = i + 1;
    }
    false
}

spec fn segs_view(done: Seq<Vec<char>>) -> Seq<Seq<char>> {
    done.map_values(|v: Vec<char>| v@)
}

fn split_chars(s: &Vec<char>) -> (r: Vec<Vec<char>>)
    ensures
        segs_view(r@) == split_segments(s@),
{
    let mut done: Vec<Vec<char>> = Vec::new();
    let mut cur: Vec<char> = Vec::new();
    let mut i: usize = 0;
    proof {
        assert(s@.subrange(0, 0) =~= Seq::<char>::empty());
        assert(segs_view(done@).push(cur@) =~= split_segments(s@.subrange(0, 0)));
    }
    while i < s.len()
        invariant
            i <= s@.len(),
            segs_view(done@).push(cur@) == split_segments(s@.subrange(0, i as int)),
        decreases s@.len() - i,
    {
        let c = s[i];
        let ghost prev = s@.subrange(0, i as int);
        let ghost next = s@.subrange(0, i + 1);
        proof {
            assert(next.drop_last() =~= prev);
            assert(next.last() == c);
        }
        if c == '/' {
            let finished = cur;
            done.push(finished);
            cur = Vec::new();
            proof {
                assert(segs_view(done@) =~= segs_view(done@.drop_last()).push(finished@));
                assert(done@.drop_last() =~= old_done(done@));
                assert(segs_view(done@).push(cur@) =~= split_segments(prev).push(
                    Seq::<char>::empty(),
                ));
            }
        } else {
            let ghost old_cur = cur@;
            cur.push(c);
            proof {
                let r = split_segments(prev);
                assert(r.last() == old_cur);
                assert(segs_view(done@).push(cur@) =~= r.update(r.len() - 1, r.last().push(c)));
            }
        }
        i = i + 1;
    }
    done.push(cur);
    proof {
        assert(s@.subrange(0, s@.len() as int) =~= s@);
        assert(segs_view(done@) =~= segs_view(done@.drop_last()).push(done@.last()@));
    }
    done
}

spec fn old_done(d: Seq<Vec<char>>) -> Seq<Vec<char>> {
    d.drop_last()
}

fn is_single(seg: &Vec<char>, c: char) -> (r: bool)
    ensures
        r == (seg@ == seq![c]),
{
    if seg.len() == 1 && seg[0] == c {
        proof {
            assert(seg@ =~= seq![c]);
        }
        true
    } else {
        proof {
            if seg@ == seq![c] {
                assert(seg@.len() == 1);
                assert(seg@[0] == c);
            }
        }
        false
    }
}

/// Does the subscription topic `subscr` match the published path `publ`?
///
/// Both are split at each '/'. A `#` segment in the subscription matches the
/// rest of the path, a `+` segment matches any one segment, other segments
/// must be equal. Empty topics or paths never match.
pub fn matches(subscr: &str, publ: &str) -> (r: bool)
    ensures
        r == topic_matches(subscr@, publ@),
{
    let sv = str_to_chars(subscr);
    let pv = str_to_chars(publ);
    if sv.len() == 0 || pv.len() == 0 {
        return false;
    }
    let ss = split_chars(&sv);
    let ps = split_chars(&pv);
    let ghost s_all = segs_view(ss@);
    let ghost p_all = segs_view(ps@);
    let mut i: usize = 0;
    proof {
        assert(s_all.subrange(0, s_all.len() as int) =~= s_all);
        assert(p_all.subrange(0, p_all.len() as int) =~= p_all);
    }
    while i < ss.len() && i < ps.len()
        invariant
            topic_matches(subscr@, publ@) == segments_match(s_all, p_all),
            s_all.len() == ss@.len(),
            p_all.len() == ps@.len(),
            s_all == segs_view(ss@),
            p_all == segs_view(ps@),
            i <= ss@.len(),
            i <= ps@.len(),
            segments_match(s_all, p_all) == segments_match(
                s_all.subrange(i as int, s_all.len() as int),
                p_all.subrange(i as int, p_all.len() as int),
            ),
        decreases ss@.len() - i,
    {
        let ghost s_rest = s_all.subrange(i as int, s_all.len() as int);
        let ghost p_rest = p_all.subrange(i as int, p_all.len() as int);
        proof {
            assert(s_rest[0] == ss@[i as int]@);
            assert(p_rest[0] == ps@[i as int]@);
            assert(s_rest.drop_first() =~= s_all.subrange(i + 1, s_all.len() as int));
            assert(p_rest.drop_first() =~= p_all.subrange(i + 1, p_all.len() as int));
        }
        if is_single(&ss[i], '#') {
            return true;
        }
        if !(is_single(&ss[i], '+') || chars_equal(&ss[i], &ps[i])) {
            return false;
        }
        i = i + 1;
    }
    proof {
        assert(s_all.subrange(i as int, s_all.len() as int).len() == s_all.len() - i);
    }
    i == ss.len() && i == ps.len()
}

} // verus!
