//! The record that a node keeps of each member of the cluster, the states a
//! member goes through, and the rule that settles which of two records of
//! one member is to be believed.

use crate::epidemic::address::{remote_text, remote_text_of, SocketAddress};
use crate::epidemic::host_key::HostKey;
use crate::epidemic::order::{
    first_difference, lemma_bytes_less_at_difference, lemma_bytes_less_irreflexive, member_less,
};
use crate::epidemic::time::{millis_between, Duration, Timestamp};
use core::cmp::Ordering;
use vstd::prelude::*;

verus! {

/// What the cluster believes of a member. The states are listed by rising
/// precedence: at equal incarnation the later one is the more authoritative.
#[derive(Debug, Clone, Copy, PartialEq, Eq, Structural, Ord, Hash)]
pub enum ArtilleryMemberState {
    /// Answers probes.
    Alive,
    /// Failed a probe and has yet to refute it.
    Suspect,
    /// Confirmed as failed.
    Down,
    /// Left the cluster of its own accord.
    Left,
}

/// Key/value pairs that a user attaches to a node. The protocol carries
/// them and never reads them.
pub type Labels = Vec<(String, String)>;

/// Bytes that a user attaches to a node. The protocol carries them and never
/// reads them.
pub type Metadata = Vec<u8>;

/// The record that a node keeps of one member of the cluster.
#[derive(Debug)]
pub struct ArtilleryMember {
    pub(crate) host_key: HostKey,
    pub(crate) remote_host: Option<SocketAddress>,
    pub(crate) incarnation_number: u64,
    pub(crate) member_state: ArtilleryMemberState,
    pub(crate) last_state_change: Timestamp,
    pub(crate) labels: Labels,
    pub(crate) metadata: Metadata,
}

/// A member record as a mathematical value.
#[verifier::ext_equal]
pub struct MemberView {
    pub host_key: Seq<u8>,
    pub remote_host: Option<SocketAddress>,
    pub incarnation_number: u64,
    pub member_state: ArtilleryMemberState,
    pub last_state_change: Timestamp,
    pub labels: Seq<(Seq<char>, Seq<char>)>,
    pub metadata: Seq<u8>,
}

/// One member record on its way to the other nodes. A later record about
/// the same member replaces the one that waits.
#[derive(Debug)]
pub struct ArtilleryStateChange {
    member: ArtilleryMember,
}

impl ArtilleryMemberState {
    /// The precedence of the state: 0 for `Alive` up to 3 for `Left`.
    pub open spec fn spec_rank(self) -> u8 {
        match self {
            ArtilleryMemberState::Alive => 0u8,
            ArtilleryMemberState::Suspect => 1u8,
            ArtilleryMemberState::Down => 2u8,
            ArtilleryMemberState::Left => 3u8,
        }
    }

    /// The precedence of the state: 0 for `Alive` up to 3 for `Left`.
    #[verifier::when_used_as_spec(spec_rank)]
    pub fn rank(self) -> (r: u8)
        ensures
            r == self.spec_rank(),
    {
        match self {
            ArtilleryMemberState::Alive => 0u8,
            ArtilleryMemberState::Suspect => 1u8,
            ArtilleryMemberState::Down => 2u8,
            ArtilleryMemberState::Left => 3u8,
        }
    }
}

/// `Less` or `Greater` as the flags say, `Equal` where neither is set.
pub open spec fn ordering_from(less: bool, greater: bool) -> Ordering {
    if less {
        Ordering::Less
    } else if greater {
        Ordering::Greater
    } else {
        Ordering::Equal
    }
}

impl PartialOrd for ArtilleryMemberState {
    fn partial_cmp(&self, other: &ArtilleryMemberState) -> (r: Option<Ordering>) {
        let a: u8 = self.rank();
        let b: u8 = other.rank();
        if a < b {
            Some(Ordering::Less)
        } else if b < a {
            Some(Ordering::Greater)
        } else {
            Some(Ordering::Equal)
        }
    }
}

impl vstd::std_specs::cmp::PartialOrdSpecImpl for ArtilleryMemberState {
    open spec fn obeys_partial_cmp_spec() -> bool {
        true
    }

    open spec fn partial_cmp_spec(&self, other: &ArtilleryMemberState) -> Option<Ordering> {
        Some(
            ordering_from(
                self.spec_rank() < other.spec_rank(),
                other.spec_rank() < self.spec_rank(),
            ),
        )
    }
}

impl View for ArtilleryMember {
    type V = MemberView;

    open(crate) spec fn view(&self) -> MemberView {
        MemberView {
            host_key: self.host_key@,
            remote_host: self.remote_host,
            incarnation_number: self.incarnation_number,
            member_state: self.member_state,
            last_state_change: self.last_state_change,
            labels: self.labels.deep_view(),
            metadata: self.metadata@,
        }
    }
}

/// A copy of the labels.
pub(crate) fn clone_labels(labels: &Labels) -> (r: Labels)
    ensures
        r@ == labels@,
{
    let mut out: Labels = Vec::new();
    let mut i: usize = 0;
    while i < labels.len()
        invariant
            i <= labels.len(),
            out@ == labels@.take(i as int),
        decreases labels.len() - i,
    {
        let key = labels[i].0.clone();
        let value = labels[i].1.clone();
        out.push((key, value));
        assert(out@ =~= labels@.take(i + 1));
        i = i + 1;
    }
    assert(labels@.take(i as int) =~= labels@);
    out
}

/// A copy of the bytes.
pub(crate) fn clone_bytes(bytes: &Vec<u8>) -> (r: Vec<u8>)
    ensures
        r@ == bytes@,
{
    let mut out: Vec<u8> = Vec::new();
    let mut i: usize = 0;
    while i < bytes.len()
        invariant
            i <= bytes.len(),
            out@ == bytes@.take(i as int),
        decreases bytes.len() - i,
    {
        out.push(bytes[i]);
        assert(out@ =~= bytes@.take(i + 1));
        i = i + 1;
    }
    assert(bytes@.take(i as int) =~= bytes@);
    out
}

/// Whether two lists of labels hold the same text in the same places.
fn labels_equal(a: &Labels, b: &Labels) -> (r: bool)
    ensures
        r == (a.deep_view() == b.deep_view()),
{
    if a.len() != b.len() {
        assert(a.deep_view().len() != b.deep_view().len());
        return false;
    }
    let mut i: usize = 0;
    while i < a.len()
        invariant
            i <= a.len(),
            a.len() == b.len(),
            forall|j: int| 0 <= j < i ==> a.deep_view()[j] == b.deep_view()[j],
        decreases a.len() - i,
    {
        let same_key = a[i].0 == b[i].0;
        let same_value = a[i].1 == b[i].1;
        if !same_key || !same_value {
            assert(a.deep_view()[i as int] != b.deep_view()[i as int]);
            return false;
        }
        assert(a.deep_view()[i as int] == b.deep_view()[i as int]);
        i = i + 1;
    }
    assert(a.deep_view() =~= b.deep_view());
    true
}

/// Whether two byte vectors hold the same bytes.
fn bytes_equal(a: &Vec<u8>, b: &Vec<u8>) -> (r: bool)
    ensures
        r == (a@ == b@),
{
    if a.len() != b.len() {
        return false;
    }
    let mut i: usize = 0;
    while i < a.len()
        invariant
            i <= a.len(),
            a.len() == b.len(),
            forall|j: int| 0 <= j < i ==> a@[j] == b@[j],
        decreases a.len() - i,
    {
        if a[i] != b[i] {
            return false;
        }
        i = i + 1;
    }
    assert(a@ =~= b@);
    true
}

impl ArtilleryMember {
    /// The record of a remote member, with `now` as the time of its last
    /// change of state.
    pub open spec fn spec_remote(
        host_key: HostKey,
        remote_host: SocketAddress,
        incarnation_number: u64,
        known_state: ArtilleryMemberState,
        labels: Labels,
        metadata: Metadata,
        now: Timestamp,
    ) -> MemberView {
        MemberView {
            host_key: host_key@,
            remote_host: Some(remote_host),
            incarnation_number,
            member_state: known_state,
            last_state_change: now,
            labels: labels.deep_view(),
            metadata: metadata@,
        }
    }

    /// The record of the local node, freshly started at `now`: alive, in
    /// its first incarnation, and without a remote address.
    pub open spec fn spec_current(
        host_key: HostKey,
        labels: Labels,
        metadata: Metadata,
        now: Timestamp,
    ) -> MemberView {
        MemberView {
            host_key: host_key@,
            remote_host: None,
            incarnation_number: 0,
            member_state: ArtilleryMemberState::Alive,
            last_state_change: now,
            labels: labels.deep_view(),
            metadata: metadata@,
        }
    }

    /// The record with the given fields.
    pub fn from_parts(
        host_key: HostKey,
        remote_host: Option<SocketAddress>,
        incarnation_number: u64,
        member_state: ArtilleryMemberState,
        last_state_change: Timestamp,
        labels: Labels,
        metadata: Metadata,
    ) -> (r: Self)
        ensures
            r@ == (MemberView {
                host_key: host_key@,
                remote_host,
                incarnation_number,
                member_state,
                last_state_change,
                labels: labels.deep_view(),
                metadata: metadata@,
            }),
    {
        ArtilleryMember {
            host_key,
            remote_host,
            incarnation_number,
            member_state,
            last_state_change,
            labels,
            metadata,
        }
    }

    /// The record of a remote member, as learned at the instant `now`.
    pub fn new_at(
        host_key: HostKey,
        remote_host: SocketAddress,
        incarnation_number: u64,
        known_state: ArtilleryMemberState,
        labels: Labels,
        metadata: Metadata,
        now: Timestamp,
    ) -> (r: Self)
        ensures
            r@ == Self::spec_remote(
                host_key,
                remote_host,
                incarnation_number,
                known_state,
                labels,
                metadata,
                now,
            ),
    {
        ArtilleryMember {
            host_key,
            remote_host: Some(remote_host),
            incarnation_number,
            member_state: known_state,
            last_state_change: now,
            labels,
            metadata,
        }
    }

    /// The record of a remote member, stamped with the system clock's time.
    /// Panics where the system clock stands before 1970.
    pub fn new(
        host_key: HostKey,
        remote_host: SocketAddress,
        incarnation_number: u64,
        known_state: ArtilleryMemberState,
        labels: Labels,
        metadata: Metadata,
    ) -> (r: Self)
        ensures
            r@.last_state_change.wf(),
            r@ == Self::spec_remote(
                host_key,
                remote_host,
                incarnation_number,
                known_state,
                labels,
                metadata,
                r@.last_state_change,
            ),
            r.spec_is_remote(),
    {
        let now = Timestamp::now();
        Self::new_at(host_key, remote_host, incarnation_number, known_state, labels, metadata, now)
    }

    /// The record of the local node, started at the instant `now`.
    pub fn current_at(host_key: HostKey, labels: Labels, metadata: Metadata, now: Timestamp) -> (r:
        Self)
        ensures
            r@ == Self::spec_current(host_key, labels, metadata, now),
    {
        ArtilleryMember {
            host_key,
            remote_host: None,
            incarnation_number: 0,
            member_state: ArtilleryMemberState::Alive,
            last_state_change: now,
            labels,
            metadata,
        }
    }

    /// The record of the local node, stamped with the system clock's time.
    /// Panics where the system clock stands before 1970.
    pub fn current(host_key: HostKey, labels: Labels, metadata: Metadata) -> (r: Self)
        ensures
            r@.last_state_change.wf(),
            r@ == Self::spec_current(host_key, labels, metadata, r@.last_state_change),
            r.spec_is_current(),
            r@.remote_host is None,
    {
        let now = Timestamp::now();
        Self::current_at(host_key, labels, metadata, now)
    }

    /// The identity of the member.
    pub fn host_key(&self) -> (k: HostKey)
        ensures
            k@ == self@.host_key,
    {
        self.host_key
    }

    /// The address of the member, or `None` for the local node.
    pub fn remote_host(&self) -> (r: Option<SocketAddress>)
        ensures
            r == self@.remote_host,
    {
        self.remote_host
    }

    /// The record is that of another node.
    pub open spec fn spec_is_remote(&self) -> bool {
        self@.remote_host is Some
    }

    /// The record is that of the local node.
    pub open spec fn spec_is_current(&self) -> bool {
        self@.remote_host is None
    }

    /// Whether the record is that of another node.
    #[verifier::when_used_as_spec(spec_is_remote)]
    pub fn is_remote(&self) -> (r: bool)
        ensures
            r == self.spec_is_remote(),
    {
        self.remote_host.is_some()
    }

    /// Whether the record is that of the local node.
    #[verifier::when_used_as_spec(spec_is_current)]
    pub fn is_current(&self) -> (r: bool)
        ensures
            r == self.spec_is_current(),
    {
        self.remote_host.is_none()
    }

    /// How often the member has refuted a report of its failure.
    pub fn incarnation_number(&self) -> (i: u64)
        ensures
            i == self@.incarnation_number,
    {
        self.incarnation_number
    }

    /// When the state of the member last changed.
    pub fn last_state_change(&self) -> (t: Timestamp)
        ensures
            t == self@.last_state_change,
    {
        self.last_state_change
    }

    /// More than `duration` lies between the last change of state and `now`.
    pub open spec fn spec_older_than(&self, duration: Duration, now: Timestamp) -> bool {
        self@.last_state_change.as_nanos() + duration.as_nanos() < now.as_nanos()
    }

    /// Whether, at the instant `now`, the state has stood for more than
    /// `duration`.
    pub fn state_change_older_than_at(&self, duration: Duration, now: Timestamp) -> (r: bool)
        ensures
            r == self.spec_older_than(duration, now),
    {
        self.last_state_change.older_than(duration, now)
    }

    /// Whether, by the system clock, the state has stood for more than
    /// `duration`. Panics where the system clock stands before 1970.
    pub fn state_change_older_than(&self, duration: Duration) -> (r: bool)
        ensures
            exists|now: Timestamp| now.wf() && r == #[trigger] self.spec_older_than(duration, now),
    {
        let now = Timestamp::now();
        self.state_change_older_than_at(duration, now)
    }

    /// The whole milliseconds for which, at the instant `now`, the state has
    /// stood, or `None` where they do not fit the result.
    pub fn drift_time_ms_at(&self, now: Timestamp) -> (r: Option<i64>)
        ensures
            r == if i64::MIN <= millis_between(self@.last_state_change, now) <= i64::MAX {
                Some(millis_between(self@.last_state_change, now) as i64)
            } else {
                None
            },
    {
        self.last_state_change.millis_until(now)
    }

    /// The state of the member.
    pub fn state(&self) -> (s: ArtilleryMemberState)
        ensures
            s == self@.member_state,
    {
        self.member_state
    }

    /// Moves the member into `state` at the instant `now`. Where the member
    /// is in that state already, nothing changes, the timestamp included.
    pub fn set_state_at(&mut self, state: ArtilleryMemberState, now: Timestamp)
        ensures
            state == old(self)@.member_state ==> *final(self) == *old(self),
            state != old(self)@.member_state ==> final(self)@ == (MemberView {
                member_state: state,
                last_state_change: now,
                ..old(self)@
            }),
    {
        if self.member_state != state {
            self.member_state = state;
            self.last_state_change = now;
        }
    }

    /// Moves the member into `state` and stamps the change with the system
    /// clock's time. Where the member is in that state already, nothing
    /// changes, the timestamp included, and the clock is not read. Panics
    /// where the clock is read and stands before 1970.
    pub fn set_state(&mut self, state: ArtilleryMemberState)
        ensures
            state == old(self)@.member_state ==> *final(self) == *old(self),
            state != old(self)@.member_state ==> final(self)@ == (MemberView {
                member_state: state,
                last_state_change: final(self)@.last_state_change,
                ..old(self)@
            }),
            state != old(self)@.member_state ==> final(self)@.last_state_change.wf(),
    {
        if self.member_state != state {
            let now = Timestamp::now();
            self.set_state_at(state, now);
        }
    }

    /// The same record under another address.
    pub fn member_by_changing_host(&self, remote_host: SocketAddress) -> (r: ArtilleryMember)
        ensures
            r@ == (MemberView { remote_host: Some(remote_host), ..self@ }),
    {
        ArtilleryMember {
            host_key: self.host_key,
            remote_host: Some(remote_host),
            incarnation_number: self.incarnation_number,
            member_state: self.member_state,
            last_state_change: self.last_state_change,
            labels: clone_labels(&self.labels),
            metadata: clone_bytes(&self.metadata),
        }
    }

    /// Starts the next incarnation of the member.
    pub fn reincarnate(&mut self)
        requires
            old(self)@.incarnation_number < u64::MAX,
        ensures
            final(self)@ == (MemberView {
                incarnation_number: (old(self)@.incarnation_number + 1) as u64,
                ..old(self)@
            }),
            final(self)@.incarnation_number > old(self)@.incarnation_number,
    {
        self.incarnation_number = self.incarnation_number + 1;
    }

    /// Starts the next incarnation of the member, unless the counter is
    /// spent. Returns whether it did.
    pub fn try_reincarnate(&mut self) -> (done: bool)
        ensures
            done == (old(self)@.incarnation_number < u64::MAX),
            done ==> final(self)@ == (MemberView {
                incarnation_number: (old(self)@.incarnation_number + 1) as u64,
                ..old(self)@
            }),
            !done ==> *final(self) == *old(self),
    {
        if self.incarnation_number < u64::MAX {
            self.reincarnate();
            true
        } else {
            false
        }
    }

    /// A copy of the labels of the member.
    pub fn labels(&self) -> (r: Labels)
        ensures
            r.deep_view() == self@.labels,
    {
        clone_labels(&self.labels)
    }

    /// A copy of the metadata of the member.
    pub fn metadata(&self) -> (r: Metadata)
        ensures
            r@ == self@.metadata,
    {
        clone_bytes(&self.metadata)
    }
}

impl Clone for ArtilleryMember {
    fn clone(&self) -> (r: ArtilleryMember)
        ensures
            r@ == self@,
    {
        ArtilleryMember {
            host_key: self.host_key,
            remote_host: self.remote_host,
            incarnation_number: self.incarnation_number,
            member_state: self.member_state,
            last_state_change: self.last_state_change,
            labels: clone_labels(&self.labels),
            metadata: clone_bytes(&self.metadata),
        }
    }
}

impl PartialEq for ArtilleryMember {
    fn eq(&self, other: &ArtilleryMember) -> (r: bool) {
        let same = self.host_key == other.host_key && self.remote_host == other.remote_host
            && self.incarnation_number == other.incarnation_number && self.member_state
            == other.member_state && self.last_state_change == other.last_state_change
            && labels_equal(&self.labels, &other.labels) && bytes_equal(
            &self.metadata,
            &other.metadata,
        );
        assert(same ==> self@ =~= other@);
        same
    }
}

impl Eq for ArtilleryMember {

}

impl vstd::std_specs::cmp::PartialEqSpecImpl for ArtilleryMember {
    open spec fn obeys_eq_spec() -> bool {
        true
    }

    open spec fn eq_spec(&self, other: &ArtilleryMember) -> bool {
        self@ == other@
    }
}

impl ArtilleryMember {
    /// How the record ranks against `rhs`: by host key, then by the printed
    /// form of the remote address, then by incarnation number, then by the
    /// precedence of the state.
    pub fn cmp(&self, rhs: &ArtilleryMember) -> (r: Ordering)
        ensures
            r == ordering_from(member_less(self@, rhs@), member_less(rhs@, self@)),
    {
        proof {
            lemma_bytes_less_irreflexive(self@.host_key);
            lemma_bytes_less_irreflexive(remote_text(self@.remote_host));
        }
        let key = self.host_key.as_bytes().as_slice();
        let other_key = rhs.host_key.as_bytes().as_slice();
        match first_difference(key, other_key) {
            Some(i) => {
                proof {
                    lemma_bytes_less_at_difference(self@.host_key, rhs@.host_key, i);
                }
                if i < key.len() && key[i] < other_key[i] {
                    return Ordering::Less;
                } else {
                    return Ordering::Greater;
                }
            },
            None => {},
        }
        let text = remote_text_of(&self.remote_host);
        let other_text = remote_text_of(&rhs.remote_host);
        match first_difference(text.as_slice(), other_text.as_slice()) {
            Some(i) => {
                proof {
                    lemma_bytes_less_at_difference(text@, other_text@, i);
                }
                if i == text.len() {
                    return Ordering::Less;
                } else if i < other_text.len() && text[i] < other_text[i] {
                    return Ordering::Less;
                } else {
                    return Ordering::Greater;
                }
            },
            None => {},
        }
        if self.incarnation_number < rhs.incarnation_number {
            return Ordering::Less;
        }
        if rhs.incarnation_number < self.incarnation_number {
            return Ordering::Greater;
        }
        let a: u8 = self.member_state.rank();
        let b: u8 = rhs.member_state.rank();
        if a < b {
            Ordering::Less
        } else if b < a {
            Ordering::Greater
        } else {
            Ordering::Equal
        }
    }
}

impl PartialOrd for ArtilleryMember {
    fn partial_cmp(&self, rhs: &ArtilleryMember) -> (r: Option<Ordering>) {
        Some(self.cmp(rhs))
    }
}

impl vstd::std_specs::cmp::PartialOrdSpecImpl for ArtilleryMember {
    open spec fn obeys_partial_cmp_spec() -> bool {
        true
    }

    open spec fn partial_cmp_spec(&self, rhs: &ArtilleryMember) -> Option<Ordering> {
        Some(ordering_from(member_less(self@, rhs@), member_less(rhs@, self@)))
    }
}

impl ArtilleryStateChange {
    /// The record that the envelope carries.
    pub closed spec fn wrapped(&self) -> ArtilleryMember {
        self.member
    }

    /// An envelope around `member`.
    pub fn new(member: ArtilleryMember) -> (r: ArtilleryStateChange)
        ensures
            r.wrapped() == member,
    {
        ArtilleryStateChange { member }
    }

    /// The record that the envelope carries.
    pub fn member(&self) -> (m: &ArtilleryMember)
        ensures
            *m == self.wrapped(),
    {
        &self.member
    }

    /// Puts `member` in the place of the record that the envelope carried.
    pub fn update(&mut self, member: ArtilleryMember)
        ensures
            final(self).wrapped() == member,
    {
        self.member = member
    }
}

impl Clone for ArtilleryStateChange {
    fn clone(&self) -> (r: ArtilleryStateChange)
        ensures
            r.wrapped()@ == self.wrapped()@,
    {
        ArtilleryStateChange { member: self.member.clone() }
    }
}

impl PartialEq for ArtilleryStateChange {
    fn eq(&self, other: &ArtilleryStateChange) -> (r: bool) {
        self.member == other.member
    }
}

impl Eq for ArtilleryStateChange {

}

impl vstd::std_specs::cmp::PartialEqSpecImpl for ArtilleryStateChange {
    open spec fn obeys_eq_spec() -> bool {
        true
    }

    open spec fn eq_spec(&self, other: &ArtilleryStateChange) -> bool {
        self.wrapped()@ == other.wrapped()@
    }
}

impl PartialOrd for ArtilleryStateChange {
    fn partial_cmp(&self, rhs: &ArtilleryStateChange) -> (r: Option<Ordering>) {
        Some(self.member.cmp(&rhs.member))
    }
}

impl vstd::std_specs::cmp::PartialOrdSpecImpl for ArtilleryStateChange {
    open spec fn obeys_partial_cmp_spec() -> bool {
        true
    }

    open spec fn partial_cmp_spec(&self, rhs: &ArtilleryStateChange) -> Option<Ordering> {
        Some(
            ordering_from(
                member_less(self.wrapped()@, rhs.wrapped()@),
                member_less(rhs.wrapped()@, self.wrapped()@),
            ),
        )
    }
}

/// Whether a report of state `lhs_state` at incarnation `lhs_incarnation`
/// is to be believed over one of `rhs_state` at `rhs_incarnation`.
///
/// A member that left stays gone. A confirmed failure stands against any
/// claim of life or suspicion. A suspicion stands against a claim of life of
/// the same or an older incarnation. Otherwise only a strictly newer
/// incarnation lets a report of life or suspicion stand against another of
/// those two, and nothing else overrides.
pub open spec fn lhs_overrides(
    lhs_state: ArtilleryMemberState,
    lhs_incarnation: u64,
    rhs_state: ArtilleryMemberState,
    rhs_incarnation: u64,
) -> bool {
    let rhs_in_doubt = rhs_state is Alive || rhs_state is Suspect;
    ||| lhs_state is Left
    ||| lhs_state is Down && rhs_in_doubt
    ||| lhs_state is Suspect && rhs_state is Alive && lhs_incarnation >= rhs_incarnation
    ||| lhs_state is Suspect && rhs_state is Suspect && lhs_incarnation > rhs_incarnation
    ||| lhs_state is Alive && rhs_in_doubt && lhs_incarnation > rhs_incarnation
}

/// Whether, of two records of one member, the first is the one to keep.
pub open spec fn keeps_lhs(lhs: MemberView, rhs: MemberView) -> bool {
    lhs_overrides(
        lhs.member_state,
        lhs.incarnation_number,
        rhs.member_state,
        rhs.incarnation_number,
    )
}

/// Of two records of one member, the one to believe from now on: `lhs`
/// where it overrides, `rhs` in every other case, a tie included. That the
/// two records speak of the same member is for the caller to see to.
pub fn most_uptodate_member_data<'a>(lhs: &'a ArtilleryMember, rhs: &'a ArtilleryMember) -> (r:
    &'a ArtilleryMember)
    ensures
        *r == if keeps_lhs(lhs@, rhs@) {
            *lhs
        } else {
            *rhs
        },
{
    let lhs_overrides = match (
        lhs.member_state,
        lhs.incarnation_number,
        rhs.member_state,
        rhs.incarnation_number,
    ) {
        (ArtilleryMemberState::Alive, i, ArtilleryMemberState::Suspect, j) => i > j,
        (ArtilleryMemberState::Alive, i, ArtilleryMemberState::Alive, j) => i > j,
        (ArtilleryMemberState::Suspect, i, ArtilleryMemberState::Suspect, j) => i > j,
        (ArtilleryMemberState::Suspect, i, ArtilleryMemberState::Alive, j) => i >= j,
        (ArtilleryMemberState::Down, _, ArtilleryMemberState::Alive, _) => true,
        (ArtilleryMemberState::Down, _, ArtilleryMemberState::Suspect, _) => true,
        (ArtilleryMemberState::Left, _, _, _) => true,
        _ => false,
    };

    if lhs_overrides {
        lhs
    } else {
        rhs
    }
}

/// Which side wins depends on nothing but the two states and the two
/// incarnation numbers: two pairs of records that agree in these are
/// decided alike.
pub proof fn lemma_reconcile_reads_state_and_incarnation(
    a: ArtilleryMember,
    b: ArtilleryMember,
    c: ArtilleryMember,
    d: ArtilleryMember,
)
    requires
        a@.member_state == c@.member_state,
        a@.incarnation_number == c@.incarnation_number,
        b@.member_state == d@.member_state,
        b@.incarnation_number == d@.incarnation_number,
    ensures
        keeps_lhs(a@, b@) == keeps_lhs(c@, d@),
{
}

/// The order of the arguments does not matter where it can be told which
/// record is the newer: of two records in different states, or both alive or
/// both suspect at different incarnations, the same one is kept whichever
/// is handed over first.
pub proof fn lemma_reconcile_ignores_argument_order(a: ArtilleryMember, b: ArtilleryMember)
    requires
        a@.member_state != b@.member_state || (a@.incarnation_number != b@.incarnation_number && (
            a@.member_state is Alive || a@.member_state is Suspect)),
    ensures
        keeps_lhs(a@, b@) != keeps_lhs(b@, a@),
{
}

/// A record of a member that left is kept against every record of a member
/// that did not, whichever is handed over first and whatever the
/// incarnations.
pub proof fn lemma_reconcile_keeps_left(a: ArtilleryMember, b: ArtilleryMember)
    requires
        a@.member_state is Left,
    ensures
        keeps_lhs(a@, b@),
        !(b@.member_state is Left) ==> !keeps_lhs(b@, a@),
{
}

} // verus!
