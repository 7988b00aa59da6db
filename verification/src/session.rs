//! Session protocol pieces that do not touch sockets: validating names and
//! snapshots, and separating server control messages from visible output.

use vstd::prelude::*;
use vstd::utf8::{decode_utf8, valid_utf8};
use vstd::string::StringSliceAdditionalSpecFns;

use crate::layout::{PaneNode, ids, pane_ids};
use crate::text::utf8_string;
use crate::{SERVER_SESSION_BUSY, SERVER_SWITCH_SESSION_PREFIX};

verus! {

broadcast use vstd::utf8::decode_utf8_encode_utf8;

/// The snapshot format written by this version.
pub const SNAPSHOT_VERSION: u32 = 1;

/// Why session input was rejected.
#[derive(Clone, Copy, Debug, PartialEq, Eq, Structural)]
pub enum SessionError {
    /// A session name is empty, longer than 64 bytes, or holds a byte other
    /// than an ASCII letter, digit, '-' or '_'.
    InvalidName,
    /// A session-switch message named a session in bytes that are not UTF-8.
    NotUtf8,
    /// A snapshot was written by another format version.
    UnsupportedVersion,
    /// A snapshot has no tabs.
    NoTabs,
    /// A tab's layout and its pane list disagree, or a pane id is used twice.
    InvalidLayout,
    /// The snapshot's active pane is not one of its panes.
    MissingActivePane,
}

pub open spec fn name_byte(b: u8) -> bool {
    (0x30 <= b <= 0x39) || (0x41 <= b <= 0x5a) || (0x61 <= b <= 0x7a) || b == 0x2d || b == 0x5f
}

pub open spec fn valid_name_bytes(b: Seq<u8>) -> bool {
    1 <= b.len() <= 64 && forall|i: int| 0 <= i < b.len() ==> name_byte(#[trigger] b[i])
}

fn name_bytes_valid(b: &[u8]) -> (r: bool)
    ensures
        r == valid_name_bytes(b@),
{
    if b.len() == 0 || b.len() > 64 {
        return false;
    }
    let mut i: usize = 0;
    while i < b.len()
        invariant
            i <= b@.len(),
            forall|j: int| 0 <= j < i ==> name_byte(#[trigger] b@[j]),
        decreases b@.len() - i,
    {
        let c = b[i];
        if !((0x30 <= c && c <= 0x39) || (0x41 <= c && c <= 0x5a) || (0x61 <= c && c <= 0x7a) || c == 0x2d || c
            == 0x5f) {
            assert(!name_byte(b@[i as int]));
            return false;
        }
        i += 1;
    }
    true
}

/// Session names may contain only ASCII letters, digits, '-' and '_', and
/// are between 1 and 64 bytes long.
pub fn validate_session_name(name: &str) -> (r: Result<(), SessionError>)
    ensures
        r is Ok <==> valid_name_bytes(name.spec_bytes()),
        r is Err ==> r == Err::<(), SessionError>(SessionError::InvalidName),
{
    if name_bytes_valid(name.as_bytes()) {
        Ok(())
    } else {
        Err(SessionError::InvalidName)
    }
}

/// The first position at or after `i` where `needle` occurs in `haystack`.
pub open spec fn find_from(haystack: Seq<u8>, needle: Seq<u8>, i: int) -> Option<int>
    decreases haystack.len() + 1 - i,
{
    if i < 0 || i + needle.len() > haystack.len() {
        None
    } else if haystack.subrange(i, i + needle.len()) == needle {
        Some(i)
    } else {
        find_from(haystack, needle, i + 1)
    }
}

/// A match is a real occurrence, and none occurs between `i` and it.
pub proof fn lemma_find_from(haystack: Seq<u8>, needle: Seq<u8>, i: int)
    requires
        i >= 0,
    ensures
        match find_from(haystack, needle, i) {
            Some(k) => i <= k && k + needle.len() <= haystack.len() && haystack.subrange(k, k + needle.len())
                == needle && forall|j: int| i <= j < k ==> #[trigger] haystack.subrange(j, j + needle.len()) != needle,
            None => forall|j: int|
                i <= j && j + needle.len() <= haystack.len() ==> #[trigger] haystack.subrange(j, j + needle.len()) != needle,
        },
    decreases haystack.len() + 1 - i,
{
    if i + needle.len() <= haystack.len() && haystack.subrange(i, i + needle.len()) != needle {
        lemma_find_from(haystack, needle, i + 1);
    }
}

/// The first position where `needle` occurs in `haystack`.
pub open spec fn find_spec(haystack: Seq<u8>, needle: Seq<u8>) -> Option<int> {
    find_from(haystack, needle, 0)
}

fn matches_at(haystack: &[u8], needle: &[u8], start: usize) -> (r: bool)
    requires
        start + needle@.len() <= haystack@.len(),
    ensures
        r == (haystack@.subrange(start as int, start + needle@.len()) == needle@),
{
    let length = haystack.len();
    let mut j: usize = 0;
    while j < needle.len()
        invariant
            length == haystack@.len(),
            start + needle@.len() <= haystack@.len(),
            j <= needle@.len(),
            forall|k: int| 0 <= k < j ==> haystack@[start + k] == needle@[k],
        decreases needle@.len() - j,
    {
        if haystack[start + j] != needle[j] {
            assert(haystack@.subrange(start as int, start + needle@.len())[j as int] != needle@[j as int]);
            return false;
        }
        j += 1;
    }
    assert(haystack@.subrange(start as int, start + needle@.len()) =~= needle@);
    true
}

/// The first position where `needle` occurs in `haystack`.
pub fn find_bytes(haystack: &[u8], needle: &[u8]) -> (r: Option<usize>)
    requires
        needle@.len() > 0,
    ensures
        match r {
            Some(i) => find_spec(haystack@, needle@) == Some(i as int),
            None => find_spec(haystack@, needle@) is None,
        },
{
    if needle.len() > haystack.len() {
        return None;
    }
    let last = haystack.len() - needle.len();
    assert(last < usize::MAX);
    let mut i: usize = 0;
    while i <= last
        invariant
            last + needle@.len() == haystack@.len(),
            needle@.len() > 0,
            last < usize::MAX,
            i <= last + 1,
            find_spec(haystack@, needle@) == find_from(haystack@, needle@, i as int),
        decreases last + 1 - i,
    {
        if matches_at(haystack, needle, i) {
            return Some(i);
        }
        i += 1;
    }
    None
}

/// The longest proper prefix of `marker`, at most `l` bytes, that `p` ends
/// with; 0 when there is none.
pub open spec fn partial_marker(p: Seq<u8>, marker: Seq<u8>, l: int) -> int
    decreases l,
{
    if l <= 0 {
        0
    } else if l < marker.len() && l <= p.len() && p.subrange(p.len() - l, p.len() as int) == marker.take(l) {
        l
    } else {
        partial_marker(p, marker, l - 1)
    }
}

/// How many trailing bytes might begin a control message and must wait for more input.
pub open spec fn retained_spec(p: Seq<u8>) -> int {
    let a = partial_marker(p, SERVER_SWITCH_SESSION_PREFIX@, SERVER_SWITCH_SESSION_PREFIX@.len() - 1);
    let b = partial_marker(p, SERVER_SESSION_BUSY@, SERVER_SESSION_BUSY@.len() - 1);
    if a >= b {
        a
    } else {
        b
    }
}

proof fn lemma_partial_marker_bound(p: Seq<u8>, marker: Seq<u8>, l: int)
    ensures
        0 <= partial_marker(p, marker, l),
        partial_marker(p, marker, l) <= p.len(),
        l >= 0 ==> partial_marker(p, marker, l) <= l,
    decreases l,
{
    if l > 0 {
        lemma_partial_marker_bound(p, marker, l - 1);
    }
}

fn partial_marker_len(p: &[u8], marker: &[u8]) -> (r: usize)
    requires
        marker@.len() > 0,
    ensures
        r == partial_marker(p@, marker@, marker@.len() - 1),
{
    let length = p.len();
    let mut l = marker.len() - 1;
    while l > 0
        invariant
            length == p@.len(),
            l < marker@.len(),
            partial_marker(p@, marker@, marker@.len() - 1) == partial_marker(p@, marker@, l as int),
        decreases l,
    {
        if l <= p.len() {
            let start = p.len() - l;
            let mut k: usize = 0;
            let mut same = true;
            while k < l
                invariant
                    length == p@.len(),
                    l <= p@.len(),
                    start == p@.len() - l,
                    l < marker@.len(),
                    k <= l,
                    same == (forall|j: int| 0 <= j < k ==> p@[start + j] == marker@[j]),
                decreases l - k,
            {
                if p[start + k] != marker[k] {
                    same = false;
                }
                k += 1;
            }
            assert(same == (p@.subrange(p@.len() - l, p@.len() as int) == marker@.take(l as int))) by {
                if same {
                    assert(p@.subrange(p@.len() - l, p@.len() as int) =~= marker@.take(l as int));
                } else {
                    let j = choose|j: int| 0 <= j < l && p@[start + j] != marker@[j];
                    assert(p@.subrange(p@.len() - l, p@.len() as int)[j] != marker@.take(l as int)[j]);
                }
            }
            if same {
                return l;
            }
        }
        l -= 1;
    }
    0
}

/// What one chunk of server output does to the decoder.
pub struct Decoded {
    /// The bytes to show now.
    pub visible: Seq<u8>,
    /// The bytes held back for the next chunk.
    pub pending: Seq<u8>,
    /// Whether the server reported that the session is busy.
    pub busy: bool,
    /// The outcome: the session to switch to, if any, or the error.
    pub result: Result<Option<Seq<char>>, SessionError>,
}

/// Split buffered server output into what is shown now, what is held back,
/// and any control message: a busy report, or a switch to a named session
/// (terminated by BEL). A trailing partial control message is held back.
pub open spec fn decode_output(p: Seq<u8>, busy: bool) -> Decoded {
    let busy_marker = SERVER_SESSION_BUSY@;
    let switch = SERVER_SWITCH_SESSION_PREFIX@;
    match find_spec(p, busy_marker) {
        Some(start) => Decoded {
            visible: p.take(start),
            pending: p.skip(start + busy_marker.len()),
            busy: true,
            result: Ok(None),
        },
        None => match find_spec(p, switch) {
            Some(start) => {
                let name_start = start + switch.len();
                match find_spec(p.skip(name_start), seq![0x07u8]) {
                    None => Decoded { visible: p.take(start), pending: p.skip(start), busy, result: Ok(None) },
                    Some(offset) => {
                        let name = p.subrange(name_start, name_start + offset);
                        if !valid_utf8(name) {
                            Decoded { visible: Seq::empty(), pending: p, busy, result: Err(SessionError::NotUtf8) }
                        } else if !valid_name_bytes(name) {
                            Decoded {
                                visible: Seq::empty(),
                                pending: p,
                                busy,
                                result: Err(SessionError::InvalidName),
                            }
                        } else {
                            Decoded {
                                visible: p.take(start),
                                pending: p.skip(name_start + offset + 1),
                                busy,
                                result: Ok(Some(decode_utf8(name))),
                            }
                        }
                    },
                }
            },
            None => {
                let keep = retained_spec(p);
                Decoded { visible: p.take(p.len() - keep), pending: p.skip(p.len() - keep), busy, result: Ok(None) }
            },
        },
    }
}

/// Separates session control messages from a client's view of server output.
pub struct ServerOutputDecoder {
    pending: Vec<u8>,
    pub busy: bool,
}

impl ServerOutputDecoder {
    pub closed spec fn pending_bytes(&self) -> Seq<u8> {
        self.pending@
    }

    pub closed spec fn busy_flag(&self) -> bool {
        self.busy
    }

    pub fn new() -> (r: Self)
        ensures
            r.pending_bytes() == Seq::<u8>::empty(),
            !r.busy_flag(),
    {
        ServerOutputDecoder { pending: Vec::new(), busy: false }
    }

    fn take_front(&mut self, n: usize) -> (r: Vec<u8>)
        requires
            n <= old(self).pending@.len(),
        ensures
            r@ == old(self).pending@.take(n as int),
            final(self).pending@ == old(self).pending@.skip(n as int),
            final(self).busy_flag() == old(self).busy_flag(),
    {
        let mut front = Vec::new();
        let mut rest = Vec::new();
        let mut i: usize = 0;
        while i < self.pending.len()
            invariant
                n <= self.pending@.len(),
                i <= self.pending@.len(),
                self.pending@ == old(self).pending@,
                front@ == self.pending@.take(if i < n { i as int } else { n as int }),
                rest@ == if i < n {
                    Seq::<u8>::empty()
                } else {
                    self.pending@.subrange(n as int, i as int)
                },
            decreases self.pending@.len() - i,
        {
            if i < n {
                front.push(self.pending[i]);
                assert(self.pending@.take(i + 1) =~= self.pending@.take(i as int).push(self.pending@[i as int]));
            } else {
                rest.push(self.pending[i]);
                assert(self.pending@.subrange(n as int, i + 1) =~= self.pending@.subrange(n as int, i as int).push(
                    self.pending@[i as int],
                ));
            }
            i += 1;
        }
        assert(rest@ =~= old(self).pending@.skip(n as int));
        self.pending = rest;
        front
    }

    /// Append a chunk of server output. Returns the bytes to show now and the
    /// session to switch to, if a complete switch message arrived.
    pub fn push(&mut self, bytes: &[u8]) -> (r: Result<(Vec<u8>, Option<String>), SessionError>)
        ensures
            ({
                let d = decode_output(old(self).pending_bytes() + bytes@, old(self).busy_flag());
                &&& final(self).pending_bytes() == d.pending
                &&& final(self).busy_flag() == d.busy
                &&& match r {
                    Ok((visible, name)) => visible@ == d.visible && d.result == Ok::<Option<Seq<char>>, SessionError>(
                        match name {
                            Some(n) => Some(n@),
                            None => None,
                        },
                    ),
                    Err(e) => d.result == Err::<Option<Seq<char>>, SessionError>(e),
                }
            }),
    {
        let ghost p = old(self).pending@ + bytes@;
        self.pending.extend_from_slice(bytes);
        assert(self.pending@ =~= p);
        let busy_marker = SERVER_SESSION_BUSY;
        let switch = SERVER_SWITCH_SESSION_PREFIX;
        assert(busy_marker@ == SERVER_SESSION_BUSY@);
        assert(switch@ == SERVER_SWITCH_SESSION_PREFIX@);
        proof {
            lemma_find_from(p, busy_marker@, 0);
            lemma_find_from(p, switch@, 0);
        }
        if let Some(start) = find_bytes(self.pending.as_slice(), &busy_marker) {
            let visible = self.take_front(start);
            let _marker = self.take_front(busy_marker.len());
            assert(self.pending@ =~= p.skip(start + busy_marker@.len()));
            self.busy = true;
            return Ok((visible, None));
        }
        let total = self.pending.len();
        if let Some(start) = find_bytes(self.pending.as_slice(), &switch) {
            assert(start + switch@.len() <= total);
            let name_start = start + switch.len();
            let tail = &self.pending.as_slice()[name_start..self.pending.len()];
            let bell = [0x07u8];
            assert(tail@ =~= p.skip(name_start as int));
            assert(bell@ =~= seq![0x07u8]);
            proof {
                lemma_find_from(p.skip(name_start as int), bell@, 0);
            }
            let end_offset = match find_bytes(tail, &bell) {
                Some(offset) => offset,
                None => {
                    let visible = self.take_front(start);
                    return Ok((visible, None));
                },
            };
            let end = name_start + end_offset;
            let name_bytes = &self.pending.as_slice()[name_start..end];
            let name = match utf8_string(name_bytes) {
                Some(name) => name,
                None => {
                    return Err(SessionError::NotUtf8);
                },
            };
            if validate_session_name(name.as_str()).is_err() {
                return Err(SessionError::InvalidName);
            }
            let visible = self.take_front(start);
            let _message = self.take_front(end - start + 1);
            assert(self.pending@ =~= p.skip(end + 1));
            return Ok((visible, Some(name)));
        }
        let a = partial_marker_len(self.pending.as_slice(), &switch);
        let b = partial_marker_len(self.pending.as_slice(), &busy_marker);
        let keep = if a >= b {
            a
        } else {
            b
        };
        proof {
            lemma_partial_marker_bound(p, switch@, switch@.len() - 1);
            lemma_partial_marker_bound(p, busy_marker@, busy_marker@.len() - 1);
        }
        let visible = self.take_front(self.pending.len() - keep);
        Ok((visible, None))
    }

    /// The bytes still held back, at the end of the stream.
    pub fn finish(&mut self) -> (r: Vec<u8>)
        ensures
            r@ == old(self).pending_bytes(),
            final(self).pending_bytes() == Seq::<u8>::empty(),
            final(self).busy_flag() == old(self).busy_flag(),
    {
        let mut taken = Vec::new();
        std::mem::swap(&mut taken, &mut self.pending);
        taken
    }
}

impl Default for ServerOutputDecoder {
    fn default() -> (r: Self)
        ensures
            r.pending_bytes() == Seq::<u8>::empty(),
            !r.busy_flag(),
    {
        ServerOutputDecoder::new()
    }
}

/// A saved session: its tabs, the floating pane and the focused pane.
#[derive(Debug, PartialEq, Eq)]
pub struct SessionSnapshot {
    pub version: u32,
    pub tabs: Vec<SnapshotTab>,
    pub floating: Option<SnapshotFloating>,
    pub active_pane: usize,
}

#[derive(Debug, PartialEq, Eq)]
pub struct SnapshotTab {
    pub id: usize,
    pub name: String,
    pub root: PaneNode,
    pub panes: Vec<SnapshotPane>,
}

#[derive(Debug, PartialEq, Eq)]
pub struct SnapshotPane {
    pub command: Option<String>,
    pub id: usize,
    pub cwd: Option<String>,
}

#[derive(Debug, PartialEq, Eq)]
pub struct SnapshotFloating {
    pub cwd: Option<String>,
    pub visible: bool,
    pub return_to: Option<usize>,
}

/// How often `x` occurs in `s`.
pub open spec fn count(s: Seq<usize>, x: usize) -> nat
    decreases s.len(),
{
    if s.len() == 0 {
        0
    } else {
        count(s.drop_last(), x) + if s.last() == x {
            1nat
        } else {
            0nat
        }
    }
}

/// The same ids with the same multiplicities, in any order.
pub open spec fn same_ids(a: Seq<usize>, b: Seq<usize>) -> bool {
    forall|x: usize| count(a, x) == count(b, x)
}

pub open spec fn listed_ids(panes: Seq<SnapshotPane>) -> Seq<usize> {
    panes.map_values(|p: SnapshotPane| p.id)
}

/// The pane ids listed by the first `k` tabs, in order.
pub open spec fn ids_before(tabs: Seq<SnapshotTab>, k: int) -> Seq<usize>
    decreases k,
{
    if k <= 0 {
        Seq::empty()
    } else {
        ids_before(tabs, k - 1) + listed_ids(tabs[k - 1].panes@)
    }
}

/// A tab lists exactly the panes of its layout, none of them used by an earlier tab.
pub open spec fn tab_ok(tabs: Seq<SnapshotTab>, k: int) -> bool {
    &&& same_ids(ids(tabs[k].root), listed_ids(tabs[k].panes@))
    &&& forall|j: int|
        0 <= j < tabs[k].panes@.len() ==> !ids_before(tabs, k).contains(#[trigger] tabs[k].panes@[j].id)
}

/// Whether a snapshot can be restored, and the first reason it cannot.
pub open spec fn snapshot_check(s: SessionSnapshot) -> Result<(), SessionError> {
    if s.version != SNAPSHOT_VERSION {
        Err(SessionError::UnsupportedVersion)
    } else if s.tabs@.len() == 0 {
        Err(SessionError::NoTabs)
    } else if exists|k: int| 0 <= k < s.tabs@.len() && !tab_ok(s.tabs@, k) {
        Err(SessionError::InvalidLayout)
    } else if !ids_before(s.tabs@, s.tabs@.len() as int).contains(s.active_pane) {
        Err(SessionError::MissingActivePane)
    } else {
        Ok(())
    }
}

proof fn lemma_count_absent(s: Seq<usize>, x: usize)
    ensures
        !s.contains(x) ==> count(s, x) == 0,
        s.contains(x) ==> count(s, x) > 0,
    decreases s.len(),
{
    if s.len() > 0 {
        lemma_count_absent(s.drop_last(), x);
        if s.contains(x) && s.last() != x {
            let k = choose|k: int| 0 <= k < s.len() && s[k] == x;
            assert(s.drop_last()[k] == x);
        }
        if !s.contains(x) && s.drop_last().contains(x) {
            let k = choose|k: int| 0 <= k < s.drop_last().len() && s.drop_last()[k] == x;
            assert(s[k] == x);
        }
    }
}

fn count_exec(s: &Vec<usize>, x: usize) -> (r: usize)
    ensures
        r == count(s@, x),
{
    let mut total: usize = 0;
    let mut i: usize = 0;
    while i < s.len()
        invariant
            i <= s@.len(),
            total == count(s@.take(i as int), x),
            total <= i,
        decreases s@.len() - i,
    {
        assert(s@.take(i + 1).drop_last() =~= s@.take(i as int));
        if s[i] == x {
            total += 1;
        }
        i += 1;
    }
    assert(s@.take(s@.len() as int) =~= s@);
    total
}

fn same_ids_exec(a: &Vec<usize>, b: &Vec<usize>) -> (r: bool)
    ensures
        r == same_ids(a@, b@),
{
    let mut i: usize = 0;
    while i < a.len()
        invariant
            i <= a@.len(),
            forall|k: int| 0 <= k < i ==> count(a@, #[trigger] a@[k]) == count(b@, a@[k]),
        decreases a@.len() - i,
    {
        if count_exec(a, a[i]) != count_exec(b, a[i]) {
            return false;
        }
        i += 1;
    }
    let mut j: usize = 0;
    while j < b.len()
        invariant
            j <= b@.len(),
            forall|k: int| 0 <= k < a@.len() ==> count(a@, #[trigger] a@[k]) == count(b@, a@[k]),
            forall|k: int| 0 <= k < j ==> count(a@, #[trigger] b@[k]) == count(b@, b@[k]),
        decreases b@.len() - j,
    {
        if count_exec(a, b[j]) != count_exec(b, b[j]) {
            return false;
        }
        j += 1;
    }
    assert forall|x: usize| count(a@, x) == count(b@, x) by {
        lemma_count_absent(a@, x);
        lemma_count_absent(b@, x);
        if a@.contains(x) {
            let k = choose|k: int| 0 <= k < a@.len() && a@[k] == x;
            assert(count(a@, a@[k]) == count(b@, a@[k]));
        } else if b@.contains(x) {
            let k = choose|k: int| 0 <= k < b@.len() && b@[k] == x;
            assert(count(a@, b@[k]) == count(b@, b@[k]));
        }
    }
    true
}

fn contains_usize(v: &Vec<usize>, x: usize) -> (r: bool)
    ensures
        r == v@.contains(x),
{
    let mut i: usize = 0;
    while i < v.len()
        invariant
            i <= v@.len(),
            forall|j: int| 0 <= j < i ==> v@[j] != x,
        decreases v@.len() - i,
    {
        if v[i] == x {
            assert(v@[i as int] == x);
            return true;
        }
        i += 1;
    }
    false
}

impl SessionSnapshot {
    pub fn new(tabs: Vec<SnapshotTab>, floating: Option<SnapshotFloating>, active_pane: usize) -> (r: Self)
        ensures
            r.version == SNAPSHOT_VERSION,
            r.tabs == tabs,
            r.floating == floating,
            r.active_pane == active_pane,
    {
        SessionSnapshot { version: SNAPSHOT_VERSION, tabs, floating, active_pane }
    }

    /// Accept only a snapshot of this version whose tabs each list exactly the
    /// panes of their layout, with no pane in two tabs and the active pane among them.
    pub fn validate(&self) -> (r: Result<(), SessionError>)
        ensures
            r == snapshot_check(*self),
    {
        if self.version != SNAPSHOT_VERSION {
            return Err(SessionError::UnsupportedVersion);
        }
        if self.tabs.len() == 0 {
            return Err(SessionError::NoTabs);
        }
        let mut all: Vec<usize> = Vec::new();
        let mut k: usize = 0;
        while k < self.tabs.len()
            invariant
                k <= self.tabs@.len(),
                self.version == SNAPSHOT_VERSION,
                self.tabs@.len() > 0,
                all@ == ids_before(self.tabs@, k as int),
                forall|j: int| 0 <= j < k ==> tab_ok(self.tabs@, j),
            decreases self.tabs@.len() - k,
        {
            let tab = &self.tabs[k];
            let root_ids = pane_ids(&tab.root);
            let mut listed: Vec<usize> = Vec::new();
            let mut fresh = true;
            let mut i: usize = 0;
            while i < tab.panes.len()
                invariant
                    tab == self.tabs@[k as int],
                    i <= tab.panes@.len(),
                    listed@ == listed_ids(tab.panes@).take(i as int),
                    all@ == ids_before(self.tabs@, k as int),
                    fresh == (forall|j: int| 0 <= j < i ==> !all@.contains(#[trigger] tab.panes@[j].id)),
                decreases tab.panes@.len() - i,
            {
                let id = tab.panes[i].id;
                if contains_usize(&all, id) {
                    fresh = false;
                }
                listed.push(id);
                assert(listed_ids(tab.panes@).take(i + 1) =~= listed_ids(tab.panes@).take(i as int).push(id));
                i += 1;
            }
            assert(listed@ =~= listed_ids(tab.panes@));
            if !same_ids_exec(&root_ids, &listed) || !fresh {
                assert(!tab_ok(self.tabs@, k as int));
                return Err(SessionError::InvalidLayout);
            }
            let mut i: usize = 0;
            let ghost before = all@;
            while i < listed.len()
                invariant
                    i <= listed@.len(),
                    all@ == before + listed@.take(i as int),
                decreases listed@.len() - i,
            {
                all.push(listed[i]);
                assert(listed@.take(i + 1) =~= listed@.take(i as int).push(listed@[i as int]));
                i += 1;
            }
            assert(listed@.take(listed@.len() as int) =~= listed@);
            k += 1;
        }
        if !contains_usize(&all, self.active_pane) {
            return Err(SessionError::MissingActivePane);
        }
        Ok(())
    }
}

/// What a session manager lists about a session.
#[derive(Debug, PartialEq, Eq)]
pub struct SessionInfo {
    pub name: String,
    pub tabs: usize,
    pub panes: usize,
    pub connected: bool,
    pub created_at: u64,
    pub last_connected_at: u64,
    pub saved: bool,
}

} // verus!

