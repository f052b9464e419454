//! Attachment inventory requests: grouping requests for content-addressed
//! attachments that share one anchor block.  Once the group is non-empty,
//! every further attachment must name the same anchor pair; the stored
//! anchor height tracks the maximum accepted height, ties keeping the
//! earlier anchor.
use vstd::prelude::*;

use crate::crypto::{sha512_256, sha512_256_of};
use crate::types::{bytes_eq, BlockHeaderHash, ConsensusHash, Hash160, StacksBlockId};

verus! {

/// The lifecycle of an attachment the node is waiting for.
#[derive(Clone, Debug, PartialEq, Eq)]
pub enum ExpectedAttachmentState {
    Signaled,
    Inventoried,
    Enqueued,
    Downloaded(Vec<u8>),
    Processed,
}

/// An attachment the node is waiting for, with where it lives and how far
/// along its retrieval is.
#[derive(Clone, Debug)]
pub struct ExpectedAttachment {
    pub page_index: u32,
    pub index: u32,
    pub content_hash: Hash160,
    pub block_id: StacksBlockId,
    pub state: ExpectedAttachmentState,
}

/// An attachment's bytes together with their content hash.
#[derive(Clone, Debug, PartialEq, Eq)]
pub struct Attachment {
    pub hash: Hash160,
    pub content: Vec<u8>,
}

impl Attachment {
    /// Pair content bytes with their content hash.
    pub fn new(content: Vec<u8>, hash: Hash160) -> (r: Attachment)
        ensures
            r.hash.0@ == hash.0@,
            r.content@ == content@,
    {
        Attachment { hash, content }
    }
}

/// One on-chain signal of an attachment: where it sits in the inventory
/// pages and which anchor block carries it.
#[derive(Clone, Debug)]
pub struct AttachmentInstance {
    pub content_hash: Hash160,
    pub page_index: u32,
    pub position_in_page: u32,
    pub block_height: u64,
    pub consensus_hash: ConsensusHash,
    pub block_header_hash: BlockHeaderHash,
}

/// The model of an attachment instance.
#[verifier::ext_equal]
pub struct AttachmentInstanceV {
    pub content_hash: Seq<u8>,
    pub page_index: u32,
    pub position_in_page: u32,
    pub block_height: u64,
    pub consensus_hash: Seq<u8>,
    pub block_header_hash: Seq<u8>,
}

impl DeepView for AttachmentInstance {
    type V = AttachmentInstanceV;

    open spec fn deep_view(&self) -> AttachmentInstanceV {
        AttachmentInstanceV {
            content_hash: self.content_hash.0@,
            page_index: self.page_index,
            position_in_page: self.position_in_page,
            block_height: self.block_height,
            consensus_hash: self.consensus_hash.0@,
            block_header_hash: self.block_header_hash.0@,
        }
    }
}

/// One missing attachment in a request: its page coordinates and content hash.
#[derive(Clone, Debug, PartialEq, Eq)]
pub struct AttachmentEntry {
    pub page_index: u32,
    pub position_in_page: u32,
    pub content_hash: Hash160,
}

/// The model of a missing-attachment entry.
#[verifier::ext_equal]
pub struct AttachmentEntryV {
    pub page_index: u32,
    pub position_in_page: u32,
    pub content_hash: Seq<u8>,
}

impl DeepView for AttachmentEntry {
    type V = AttachmentEntryV;

    open spec fn deep_view(&self) -> AttachmentEntryV {
        AttachmentEntryV {
            page_index: self.page_index,
            position_in_page: self.position_in_page,
            content_hash: self.content_hash.0@,
        }
    }
}

/// The model of an attachments-inventory request.
#[verifier::ext_equal]
pub struct AttachmentsInvRequestV {
    pub block_height: u64,
    pub consensus_hash: Seq<u8>,
    pub block_header_hash: Seq<u8>,
    pub burn_block_height: u64,
    pub missing: Seq<AttachmentEntryV>,
}

/// A group of attachment requests bound to a single anchor block.  The
/// missing attachments form a mapping from page coordinates to content
/// hashes (keys are unique; their order carries no meaning).
#[derive(Clone, Debug)]
pub struct AttachmentsInvRequest {
    pub block_height: u64,
    pub consensus_hash: ConsensusHash,
    pub block_header_hash: BlockHeaderHash,
    pub burn_block_height: u64,
    pub missing_attachments: Vec<AttachmentEntry>,
}

impl DeepView for AttachmentsInvRequest {
    type V = AttachmentsInvRequestV;

    open spec fn deep_view(&self) -> AttachmentsInvRequestV {
        AttachmentsInvRequestV {
            block_height: self.block_height,
            consensus_hash: self.consensus_hash.0@,
            block_header_hash: self.block_header_hash.0@,
            burn_block_height: self.burn_block_height,
            missing: self.missing_attachments.deep_view(),
        }
    }
}

/// The empty request: zeroed anchor, no entries.
pub open spec fn spec_new_request() -> AttachmentsInvRequestV {
    AttachmentsInvRequestV {
        block_height: 0,
        consensus_hash: Seq::new(20, |i: int| 0u8),
        block_header_hash: Seq::new(32, |i: int| 0u8),
        burn_block_height: 0,
        missing: Seq::empty(),
    }
}

/// Whether an attachment names the request's stored anchor pair.
pub open spec fn spec_same_block(s: AttachmentsInvRequestV, a: AttachmentInstanceV) -> bool {
    a.block_header_hash == s.block_header_hash && a.consensus_hash == s.consensus_hash
}

/// Whether a request accepts an attachment: always while empty, afterwards
/// only for the stored anchor pair.
pub open spec fn spec_accepts(s: AttachmentsInvRequestV, a: AttachmentInstanceV) -> bool {
    s.missing.len() == 0 || spec_same_block(s, a)
}

/// The entry an attachment contributes.
pub open spec fn spec_entry_of(a: AttachmentInstanceV) -> AttachmentEntryV {
    AttachmentEntryV {
        page_index: a.page_index,
        position_in_page: a.position_in_page,
        content_hash: a.content_hash,
    }
}

/// Insert an entry into the run, overwriting the first entry with the same
/// page coordinates, or appending when none matches.
pub open spec fn spec_insert_entry(es: Seq<AttachmentEntryV>, e: AttachmentEntryV) -> Seq<
    AttachmentEntryV,
>
    decreases es.len(),
{
    if es.len() == 0 {
        seq![e]
    } else if es[0].page_index == e.page_index && es[0].position_in_page == e.position_in_page {
        seq![e] + es.drop_first()
    } else {
        seq![es[0]] + spec_insert_entry(es.drop_first(), e)
    }
}

/// The state after accepting an attachment: its entry stored, and the anchor
/// adopted exactly when the attachment's block is strictly higher.
pub open spec fn spec_add_request(s: AttachmentsInvRequestV, a: AttachmentInstanceV)
    -> AttachmentsInvRequestV {
    let entries = spec_insert_entry(s.missing, spec_entry_of(a));
    if a.block_height > s.block_height {
        AttachmentsInvRequestV {
            block_height: a.block_height,
            consensus_hash: a.consensus_hash,
            block_header_hash: a.block_header_hash,
            missing: entries,
            ..s
        }
    } else {
        AttachmentsInvRequestV { missing: entries, ..s }
    }
}

/// One step of request building: accept and apply, or leave the state as is.
pub open spec fn spec_step(s: AttachmentsInvRequestV, a: AttachmentInstanceV)
    -> AttachmentsInvRequestV {
    if spec_accepts(s, a) {
        spec_add_request(s, a)
    } else {
        s
    }
}

/// Fold a run of attachments through request building.
pub open spec fn spec_apply_requests(s: AttachmentsInvRequestV, atts: Seq<AttachmentInstanceV>)
    -> AttachmentsInvRequestV
    decreases atts.len(),
{
    if atts.len() == 0 {
        s
    } else {
        spec_apply_requests(spec_step(s, atts[0]), atts.drop_first())
    }
}

impl AttachmentsInvRequest {
    /// Make an empty request with a zeroed anchor.
    pub fn new() -> (r: AttachmentsInvRequest)
        ensures
            r.deep_view() == spec_new_request(),
    {
        let missing: Vec<AttachmentEntry> = Vec::new();
        let r = AttachmentsInvRequest {
            block_height: 0,
            burn_block_height: 0,
            consensus_hash: ConsensusHash::zeroed(),
            block_header_hash: BlockHeaderHash::zeroed(),
            missing_attachments: missing,
        };
        assert(r.deep_view() =~= spec_new_request());
        r
    }

    /// Whether an attachment names this request's stored anchor pair.
    pub fn is_attachment_in_same_block(&self, attachment: &AttachmentInstance) -> (r: bool)
        ensures
            r == spec_same_block(self.deep_view(), attachment.deep_view()),
    {
        bytes_eq(&self.block_header_hash.0, &attachment.block_header_hash.0) && bytes_eq(
            &self.consensus_hash.0,
            &attachment.consensus_hash.0,
        )
    }

    /// Add an attachment to the group.  While the group is empty any
    /// attachment is accepted; afterwards only those naming the stored
    /// anchor pair, and the call reports false and changes nothing for any
    /// other.  An accepted attachment's entry overwrites the entry at its
    /// page coordinates, and the anchor is adopted exactly when the
    /// attachment's block is strictly higher than the stored one.
    pub fn add_request(&mut self, attachment: &AttachmentInstance) -> (r: bool)
        ensures
            r == spec_accepts(old(self).deep_view(), attachment.deep_view()),
            r ==> final(self).deep_view() == spec_add_request(
                old(self).deep_view(),
                attachment.deep_view(),
            ),
            !r ==> *final(self) == *old(self),
    {
        let ghost s0 = self.deep_view();
        let ghost av = attachment.deep_view();
        if self.missing_attachments.len() > 0 && !self.is_attachment_in_same_block(attachment) {
            return false;
        }
        assert(spec_accepts(s0, av));
        let entry = AttachmentEntry {
            page_index: attachment.page_index,
            position_in_page: attachment.position_in_page,
            content_hash: Hash160(crate::codec::copy_bytes(&attachment.content_hash.0)),
        };
        assert(entry.deep_view() =~= spec_entry_of(av));
        self.insert_entry(entry);
        assert(self.missing_attachments.deep_view() == spec_insert_entry(
            s0.missing,
            spec_entry_of(av),
        ));
        if attachment.block_height > self.block_height {
            self.block_height = attachment.block_height;
            self.consensus_hash = ConsensusHash(
                crate::codec::copy_bytes(&attachment.consensus_hash.0),
            );
            self.block_header_hash = BlockHeaderHash(
                crate::codec::copy_bytes(&attachment.block_header_hash.0),
            );
        }
        assert(self.deep_view() =~= spec_add_request(s0, av));
        true
    }

    /// Store an entry, overwriting the one at its page coordinates if present.
    fn insert_entry(&mut self, entry: AttachmentEntry)
        ensures
            final(self).missing_attachments.deep_view() == spec_insert_entry(
                old(self).missing_attachments.deep_view(),
                entry.deep_view(),
            ),
            final(self).block_height == old(self).block_height,
            final(self).consensus_hash == old(self).consensus_hash,
            final(self).block_header_hash == old(self).block_header_hash,
            final(self).burn_block_height == old(self).burn_block_height,
    {
        let ghost es0 = self.missing_attachments.deep_view();
        let ghost ev = entry.deep_view();
        let mut i: usize = 0;
        while i < self.missing_attachments.len()
            invariant
                i <= self.missing_attachments@.len(),
                self.missing_attachments.deep_view() == es0,
                ev == entry.deep_view(),
                *self == *old(self),
                forall|j: int|
                    0 <= j < i ==> !(es0[j].page_index == ev.page_index
                        && es0[j].position_in_page == ev.position_in_page),
            decreases self.missing_attachments@.len() - i,
        {
            assert(es0[i as int] == self.missing_attachments@[i as int].deep_view());
            if self.missing_attachments[i].page_index == entry.page_index
                && self.missing_attachments[i].position_in_page == entry.position_in_page {
                assert(es0[i as int].page_index == ev.page_index && es0[i as int].position_in_page
                    == ev.position_in_page);
                let ghost before = self.missing_attachments@;
                self.missing_attachments.remove(i);
                self.missing_attachments.insert(i, entry);
                proof {
                    assert(self.missing_attachments@ =~= before.update(i as int, entry));
                    assert(self.missing_attachments.deep_view() =~= es0.update(i as int, ev));
                    lemma_insert_entry_update(es0, ev, i as int);
                }
                return ;
            }
            i = i + 1;
        }
        self.missing_attachments.push(entry);
        proof {
            assert(self.missing_attachments.deep_view() =~= es0.push(ev));
            lemma_insert_entry_append(es0, ev);
        }
    }

    /// The distinct page indices among the missing attachments.
    pub fn get_pages_indexes(&self) -> (r: Vec<u32>)
        ensures
            forall|p: u32|
                #![auto]
                r@.contains(p) <==> exists|j: int|
                    0 <= j < self.deep_view().missing.len()
                        && self.deep_view().missing[j].page_index == p,
            forall|i: int, j: int| 0 <= i < j < r@.len() ==> r@[i] != r@[j],
    {
        let ghost es = self.deep_view().missing;
        let mut pages: Vec<u32> = Vec::new();
        let mut i: usize = 0;
        while i < self.missing_attachments.len()
            invariant
                i <= self.missing_attachments@.len(),
                es == self.deep_view().missing,
                forall|p: u32|
                    #![auto]
                    pages@.contains(p) <==> exists|j: int|
                        0 <= j < i && es[j].page_index == p,
                forall|a: int, b: int| 0 <= a < b < pages@.len() ==> pages@[a] != pages@[b],
            decreases self.missing_attachments@.len() - i,
        {
            let p = self.missing_attachments[i].page_index;
            assert(es[i as int].page_index == p);
            let mut seen = false;
            let mut k: usize = 0;
            while k < pages.len()
                invariant
                    k <= pages@.len(),
                    seen <==> exists|t: int| 0 <= t < k && pages@[t] == p,
                decreases pages@.len() - k,
            {
                if pages[k] == p {
                    seen = true;
                    assert(exists|t: int| 0 <= t < k + 1 && pages@[t] == p);
                }
                k = k + 1;
            }
            if !seen {
                let ghost before = pages@;
                pages.push(p);
                proof {
                    assert(forall|t: int| 0 <= t < before.len() ==> pages@[t] == before[t]);
                    assert(pages@[before.len() as int] == p);
                    assert forall|q: u32| #![auto] pages@.contains(q) implies (before.contains(q)
                        || q == p) by {
                        let t = choose|t: int| 0 <= t < pages@.len() && pages@[t] == q;
                        if t < before.len() {
                            assert(before[t] == q);
                        }
                    }
                    assert forall|q: u32| #![auto] (before.contains(q) || q == p)
                        implies pages@.contains(q) by {
                        if before.contains(q) {
                            let t = choose|t: int| 0 <= t < before.len() && before[t] == q;
                            assert(pages@[t] == q);
                        } else {
                            assert(pages@[before.len() as int] == q);
                        }
                    }
                    assert forall|q: u32| #![auto] pages@.contains(q) implies (exists|j: int|
                        0 <= j < i + 1 && es[j].page_index == q) by {
                        if before.contains(q) {
                            assert(exists|j: int| 0 <= j < i && es[j].page_index == q);
                        } else {
                            assert(q == p);
                            assert(es[i as int].page_index == q);
                        }
                    }
                    assert forall|q: u32| #![auto] (exists|j: int|
                        0 <= j < i + 1 && es[j].page_index == q) implies pages@.contains(q) by {
                        let j = choose|j: int| 0 <= j < i + 1 && es[j].page_index == q;
                        if j < i {
                            assert(before.contains(q));
                        } else {
                            assert(q == p);
                        }
                    }
                }
            } else {
                proof {
                    assert(pages@.contains(p));
                    assert forall|q: u32| #![auto] (exists|j: int|
                        0 <= j < i + 1 && es[j].page_index == q) implies pages@.contains(q) by {
                        let j = choose|j: int| 0 <= j < i + 1 && es[j].page_index == q;
                        if j < i {
                            assert(exists|jj: int| 0 <= jj < i && es[jj].page_index == q);
                        } else {
                            assert(q == p);
                        }
                    }
                }
            }
            i = i + 1;
        }
        pages
    }

    /// The index block hash of this request's anchor: the SHA-512/256 digest
    /// of the block header hash followed by the consensus hash, which is how
    /// an anchored block is keyed in the chain-state index.
    pub fn get_stacks_block_id(&self) -> (r: StacksBlockId)
        requires
            self.consensus_hash.0@.len() == 20,
            self.block_header_hash.0@.len() == 32,
        ensures
            r.0@ == sha512_256_of(self.deep_view().block_header_hash + self.deep_view().consensus_hash),
    {
        let mut preimage = crate::codec::copy_bytes(&self.block_header_hash.0);
        crate::codec::write_raw_bytes(&mut preimage, &self.consensus_hash.0);
        assert(preimage@ == self.deep_view().block_header_hash + self.deep_view().consensus_hash);
        StacksBlockId(sha512_256(&preimage))
    }
}

/// Inserting over the unique matching key updates that entry in place.
proof fn lemma_insert_entry_update(es: Seq<AttachmentEntryV>, e: AttachmentEntryV, i: int)
    requires
        0 <= i < es.len(),
        es[i].page_index == e.page_index,
        es[i].position_in_page == e.position_in_page,
        forall|j: int|
            0 <= j < i ==> !(es[j].page_index == e.page_index && es[j].position_in_page
                == e.position_in_page),
    ensures
        spec_insert_entry(es, e) == es.update(i, e),
    decreases i,
{
    if i == 0 {
        assert(spec_insert_entry(es, e) == seq![e] + es.drop_first());
        assert(seq![e] + es.drop_first() =~= es.update(0, e));
    } else {
        lemma_insert_entry_update(es.drop_first(), e, i - 1);
        assert(spec_insert_entry(es, e) == seq![es[0]] + spec_insert_entry(es.drop_first(), e));
        assert(seq![es[0]] + es.drop_first().update(i - 1, e) =~= es.update(i, e));
    }
}

/// Inserting a fresh key appends its entry.
proof fn lemma_insert_entry_append(es: Seq<AttachmentEntryV>, e: AttachmentEntryV)
    requires
        forall|j: int|
            0 <= j < es.len() ==> !(es[j].page_index == e.page_index && es[j].position_in_page
                == e.position_in_page),
    ensures
        spec_insert_entry(es, e) == es.push(e),
    decreases es.len(),
{
    if es.len() == 0 {
        assert(seq![e] =~= es.push(e));
    } else {
        lemma_insert_entry_append(es.drop_first(), e);
        assert(seq![es[0]] + es.drop_first().push(e) =~= es.push(e));
    }
}

} // verus!

verus! {

/// The request built from a fresh start by the first `n` attachments.
pub open spec fn spec_state_at(atts: Seq<AttachmentInstanceV>, n: int) -> AttachmentsInvRequestV {
    spec_apply_requests(spec_new_request(), atts.take(n))
}

/// Whether the request accepts attachment `i` when it arrives.
pub open spec fn spec_accepted_at(atts: Seq<AttachmentInstanceV>, i: int) -> bool {
    spec_accepts(spec_state_at(atts, i), atts[i])
}

/// Folding one more attachment steps the fold.
proof fn lemma_apply_snoc(
    s: AttachmentsInvRequestV,
    xs: Seq<AttachmentInstanceV>,
    x: AttachmentInstanceV,
)
    ensures
        spec_apply_requests(s, xs.push(x)) == spec_step(spec_apply_requests(s, xs), x),
    decreases xs.len(),
{
    if xs.len() == 0 {
        assert(xs.push(x).drop_first() =~= Seq::<AttachmentInstanceV>::empty());
        assert(xs.push(x)[0] == x);
        assert(spec_apply_requests(s, xs.push(x)) == spec_apply_requests(
            spec_step(s, x),
            xs.push(x).drop_first(),
        ));
        assert(spec_apply_requests(spec_step(s, x), Seq::<AttachmentInstanceV>::empty())
            == spec_step(s, x));
        assert(xs =~= Seq::<AttachmentInstanceV>::empty());
        assert(spec_apply_requests(s, xs) == s);
    } else {
        assert(xs.push(x)[0] == xs[0]);
        assert(xs.push(x).drop_first() =~= xs.drop_first().push(x));
        lemma_apply_snoc(spec_step(s, xs[0]), xs.drop_first(), x);
    }
}

/// Inserting an entry never leaves the run empty.
proof fn lemma_insert_entry_nonempty(es: Seq<AttachmentEntryV>, e: AttachmentEntryV)
    ensures
        spec_insert_entry(es, e).len() >= 1,
{
    if es.len() == 0 {
    } else if es[0].page_index == e.page_index && es[0].position_in_page == e.position_in_page {
    } else {
    }
}

/// The anchor invariant of request building, after `n` attachments with
/// positive block heights: the group is empty exactly when nothing was
/// accepted (and then the request is still fresh); every accepted attachment
/// names the pair the request stores and no accepted height exceeds the
/// stored one; and once non-empty, some accepted attachment has exactly the
/// stored height.
pub open spec fn spec_anchor_inv(atts: Seq<AttachmentInstanceV>, n: int) -> bool {
    let s = spec_state_at(atts, n);
    &&& (s.missing.len() == 0 <==> (forall|i: int|
        0 <= i < n ==> !#[trigger] spec_accepted_at(atts, i)))
    &&& (s.missing.len() == 0 ==> s == spec_new_request())
    &&& (forall|i: int|
        0 <= i < n && #[trigger] spec_accepted_at(atts, i) ==> atts[i].consensus_hash
            == s.consensus_hash && atts[i].block_header_hash == s.block_header_hash
            && atts[i].block_height <= s.block_height)
    &&& (s.missing.len() > 0 ==> exists|i: int|
        0 <= i < n && #[trigger] spec_accepted_at(atts, i) && atts[i].block_height
            == s.block_height)
}

/// The anchor law: for any run of attachments whose block heights are
/// positive, building a request from fresh keeps the anchor invariant.  A
/// zero-height first attachment is the one exception the law leaves out: it
/// is accepted into the group while the zeroed anchor is retained.
pub proof fn lemma_anchor_invariant(atts: Seq<AttachmentInstanceV>, n: int)
    requires
        0 <= n <= atts.len(),
        forall|i: int| 0 <= i < n ==> #[trigger] atts[i].block_height > 0,
    ensures
        spec_anchor_inv(atts, n),
    decreases n,
{
    if n == 0 {
        assert(atts.take(0) =~= Seq::<AttachmentInstanceV>::empty());
    } else {
        lemma_anchor_invariant(atts, n - 1);
        let s = spec_state_at(atts, n - 1);
        let a = atts[n - 1];
        assert(atts.take(n) =~= atts.take(n - 1).push(a));
        lemma_apply_snoc(spec_new_request(), atts.take(n - 1), a);
        assert(spec_state_at(atts, n) == spec_step(s, a));
        if spec_accepts(s, a) {
            assert(spec_accepted_at(atts, n - 1));
            lemma_insert_entry_nonempty(s.missing, spec_entry_of(a));
            let s2 = spec_add_request(s, a);
            if s.missing.len() == 0 {
                assert(s == spec_new_request());
                assert(a.block_height > s.block_height);
                assert(s2.consensus_hash == a.consensus_hash && s2.block_header_hash
                    == a.block_header_hash && s2.block_height == a.block_height);
                assert(forall|i: int|
                    0 <= i < n - 1 ==> !#[trigger] spec_accepted_at(atts, i));
            } else {
                assert(spec_same_block(s, a));
                if a.block_height > s.block_height {
                    assert(s2.block_height == a.block_height && s2.consensus_hash
                        == s.consensus_hash && s2.block_header_hash == s.block_header_hash);
                } else {
                    let j = choose|j: int|
                        0 <= j < n - 1 && #[trigger] spec_accepted_at(atts, j) && atts[
                            j
                        ].block_height == s.block_height;
                    assert(spec_accepted_at(atts, j) && atts[j].block_height
                        == s2.block_height);
                }
            }
        } else {
            assert(!spec_accepted_at(atts, n - 1));
            assert(spec_state_at(atts, n) == s);
        }
    }
}

} // verus!
