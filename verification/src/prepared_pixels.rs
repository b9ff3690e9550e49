//! Captured pixels that wait in memory for an idle machine.
//!
//! They are the one place where screen contents are held in the clear, so they
//! are bounded in size and in age. What is dropped is not lost: it can be read
//! back from the store once the session is unlocked.
use crate::text;
use vstd::prelude::*;
use vstd::string::*;

verus! {

pub const CAPTURE_PIXEL_BUDGET_BYTES: usize = 67_108_864;

/// Six hours, in milliseconds.
pub const CAPTURE_PIXEL_TTL_MS: u64 = 21_600_000;

/// An image as packed red, green and blue bytes.
#[derive(Debug)]
pub struct DecodedImage {
    pub width: u32,
    pub height: u32,
    pub rgb: Vec<u8>,
}

/// A capture that was resized to the input of the model.
#[derive(Debug)]
pub struct PreparedCapture {
    pub image_hash: String,
    pub screenshot_id: i64,
    pub width: u32,
    pub height: u32,
    pub rgb: Vec<u8>,
    pub prepared_at: u64,
}

/// The captures that are held, at most one for each image.
#[derive(Debug)]
pub struct PreparedCaptures {
    pub entries: Vec<PreparedCapture>,
}

/// The capture is too old to be kept.
pub open spec fn expired(entry: PreparedCapture, now: u64) -> bool {
    now >= entry.prepared_at + CAPTURE_PIXEL_TTL_MS
}

fn is_expired(entry: &PreparedCapture, now: u64) -> (result: bool)
    ensures
        result == expired(*entry, now),
{
    now >= entry.prepared_at && now - entry.prepared_at >= CAPTURE_PIXEL_TTL_MS
}

/// The captures that are not too old, in order.
pub open spec fn fresh(entries: Seq<PreparedCapture>, now: u64) -> Seq<PreparedCapture>
    decreases entries.len(),
{
    if entries.len() == 0 {
        entries
    } else {
        let rest = fresh(entries.drop_last(), now);
        if expired(entries.last(), now) {
            rest
        } else {
            rest.push(entries.last())
        }
    }
}

/// The bytes that the captures hold.
pub open spec fn total_bytes(entries: Seq<PreparedCapture>) -> int
    decreases entries.len(),
{
    if entries.len() == 0 {
        0
    } else {
        total_bytes(entries.drop_last()) + entries.last().rgb@.len()
    }
}

/// The place of the oldest capture: the first of those that are as old.
pub open spec fn oldest(entries: Seq<PreparedCapture>) -> int
    decreases entries.len(),
{
    if entries.len() <= 1 {
        0
    } else {
        let before = oldest(entries.drop_last());
        if entries.last().prepared_at < entries[before].prepared_at {
            entries.len() - 1
        } else {
            before
        }
    }
}

/// The captures that are left when `incoming` bytes have to fit beside them:
/// the oldest go first.
pub open spec fn with_room(entries: Seq<PreparedCapture>, incoming: int) -> Seq<PreparedCapture>
    decreases entries.len(),
{
    if incoming > CAPTURE_PIXEL_BUDGET_BYTES {
        Seq::empty()
    } else if entries.len() == 0 || total_bytes(entries) + incoming <= CAPTURE_PIXEL_BUDGET_BYTES {
        entries
    } else {
        let i = oldest(entries);
        if 0 <= i < entries.len() {
            with_room(entries.remove(i), incoming)
        } else {
            entries
        }
    }
}

proof fn lemma_oldest(entries: Seq<PreparedCapture>)
    requires
        entries.len() > 0,
    ensures
        0 <= oldest(entries) < entries.len(),
        forall|j: int|
            0 <= j < entries.len() ==> entries[oldest(entries)].prepared_at <= (
            #[trigger] entries[j]).prepared_at,
    decreases entries.len(),
{
    if entries.len() > 1 {
        let head = entries.drop_last();
        lemma_oldest(head);
        assert forall|j: int| 0 <= j < entries.len() implies entries[oldest(entries)].prepared_at
            <= (#[trigger] entries[j]).prepared_at by {
            if j < head.len() {
                assert(head[j] == entries[j]);
            }
        }
    }
}

/// Where something can fit at all, it fits once room was made.
pub proof fn law_room_is_made(entries: Seq<PreparedCapture>, incoming: int)
    requires
        0 <= incoming <= CAPTURE_PIXEL_BUDGET_BYTES,
    ensures
        total_bytes(with_room(entries, incoming)) + incoming <= CAPTURE_PIXEL_BUDGET_BYTES,
    decreases entries.len(),
{
    if entries.len() > 0 && total_bytes(entries) + incoming > CAPTURE_PIXEL_BUDGET_BYTES {
        lemma_oldest(entries);
        law_room_is_made(entries.remove(oldest(entries)), incoming);
    }
}

/// A capture that is dropped to make room is at least as old as every one that
/// stays.
pub proof fn law_the_oldest_go_first(
    entries: Seq<PreparedCapture>,
    incoming: int,
    gone: PreparedCapture,
    kept: PreparedCapture,
)
    requires
        incoming <= CAPTURE_PIXEL_BUDGET_BYTES,
        entries.contains(gone),
        !with_room(entries, incoming).contains(gone),
        with_room(entries, incoming).contains(kept),
    ensures
        gone.prepared_at <= kept.prepared_at,
    decreases entries.len(),
{
    if entries.len() > 0 && total_bytes(entries) + incoming > CAPTURE_PIXEL_BUDGET_BYTES {
        lemma_oldest(entries);
        let i = oldest(entries);
        let rest = entries.remove(i);
        lemma_room_keeps_some(rest, incoming, kept);
        let k = choose|k: int| 0 <= k < rest.len() && rest[k] == kept;
        assert(rest[k] == entries[if k < i {
            k
        } else {
            k + 1
        }]);
        if gone != entries[i] {
            let g = choose|g: int| 0 <= g < entries.len() && entries[g] == gone;
            assert(rest[if g < i {
                g
            } else {
                g - 1
            }] == gone);
            law_the_oldest_go_first(rest, incoming, gone, kept);
        }
    }
}

proof fn lemma_room_keeps_some(entries: Seq<PreparedCapture>, incoming: int, kept: PreparedCapture)
    requires
        with_room(entries, incoming).contains(kept),
    ensures
        entries.contains(kept),
    decreases entries.len(),
{
    if incoming <= CAPTURE_PIXEL_BUDGET_BYTES && entries.len() > 0 && total_bytes(entries) + incoming
        > CAPTURE_PIXEL_BUDGET_BYTES {
        lemma_oldest(entries);
        let i = oldest(entries);
        let rest = entries.remove(i);
        lemma_room_keeps_some(rest, incoming, kept);
        let k = choose|k: int| 0 <= k < rest.len() && rest[k] == kept;
        assert(rest[k] == entries[if k < i {
            k
        } else {
            k + 1
        }]);
    }
}

/// The place of the capture of an image, or the number of captures.
pub open spec fn place_of(entries: Seq<PreparedCapture>, image_hash: Seq<char>) -> int
    decreases entries.len(),
{
    if entries.len() == 0 {
        0
    } else if entries[0].image_hash@ == image_hash {
        0
    } else {
        1 + place_of(entries.drop_first(), image_hash)
    }
}

proof fn lemma_place(entries: Seq<PreparedCapture>, image_hash: Seq<char>, at: int)
    requires
        0 <= at <= entries.len(),
        forall|i: int| 0 <= i < at ==> (#[trigger] entries[i]).image_hash@ != image_hash,
        at < entries.len() ==> entries[at].image_hash@ == image_hash,
    ensures
        place_of(entries, image_hash) == at,
    decreases at,
{
    if at > 0 {
        let rest = entries.drop_first();
        assert(entries[0].image_hash@ != image_hash);
        assert forall|i: int| 0 <= i < at - 1 implies (#[trigger] rest[i]).image_hash@
            != image_hash by {
            assert(rest[i] == entries[i + 1]);
        }
        if at < entries.len() {
            assert(rest[at - 1] == entries[at]);
        }
        lemma_place(rest, image_hash, at - 1);
    }
}

/// The captures without that of an image.
pub open spec fn without(entries: Seq<PreparedCapture>, image_hash: Seq<char>) -> Seq<
    PreparedCapture,
> {
    let at = place_of(entries, image_hash);
    if 0 <= at < entries.len() {
        entries.remove(at)
    } else {
        entries
    }
}

/// The capture of an image, if it is held.
pub open spec fn held(entries: Seq<PreparedCapture>, image_hash: Seq<char>) -> Option<
    PreparedCapture,
> {
    let at = place_of(entries, image_hash);
    if 0 <= at < entries.len() {
        Some(entries[at])
    } else {
        None
    }
}

impl PreparedCaptures {
    /// Nothing is held.
    pub fn new() -> (result: Self)
        ensures
            result.entries@.len() == 0,
    {
        PreparedCaptures { entries: Vec::new() }
    }

    /// How many captures are held.
    pub fn len(&self) -> (result: usize)
        ensures
            result == self.entries@.len(),
    {
        self.entries.len()
    }

    fn position(&self, image_hash: &str) -> (result: usize)
        ensures
            result == place_of(self.entries@, image_hash@),
            result <= self.entries@.len(),
    {
        let mut i: usize = 0;
        while i < self.entries.len() && !text::same(&self.entries[i].image_hash, image_hash)
            invariant
                i <= self.entries@.len(),
                forall|j: int|
                    0 <= j < i ==> (#[trigger] self.entries@[j]).image_hash@ != image_hash@,
            decreases self.entries@.len() - i,
        {
            i = i + 1;
        }
        proof {
            lemma_place(self.entries@, image_hash@, i as int);
        }
        i
    }

    /// The image has a capture.
    pub fn contains_key(&self, image_hash: &str) -> (result: bool)
        ensures
            result == held(self.entries@, image_hash@) is Some,
    {
        self.position(image_hash) < self.entries.len()
    }

    /// Puts a capture in the place of an earlier one of the same image.
    pub fn insert(&mut self, entry: PreparedCapture)
        ensures
            final(self).entries@ == without(old(self).entries@, entry.image_hash@).push(entry),
    {
        self.forget_prepared(entry.image_hash.as_str());
        self.entries.push(entry);
    }

    /// Drops the captures that are too old.
    pub fn drop_expired(&mut self, now: u64)
        ensures
            final(self).entries@ == fresh(old(self).entries@, now),
    {
        let ghost before = self.entries@;
        let mut i: usize = 0;
        let mut done: Ghost<int> = Ghost(0);
        assert(before.take(0) =~= Seq::<PreparedCapture>::empty());
        assert(before.skip(0) =~= before);
        while i < self.entries.len()
            invariant
                i <= self.entries@.len(),
                0 <= done@ <= before.len(),
                self.entries@ == fresh(before.take(done@), now) + before.skip(done@),
                i == fresh(before.take(done@), now).len(),
            decreases self.entries@.len() - i,
        {
            let ghost n = done@;
            let ghost head = fresh(before.take(n), now);
            proof {
                assert(before.skip(n).len() > 0);
                assert(self.entries@[i as int] == before[n]);
                assert(before.take(n + 1).drop_last() =~= before.take(n));
                assert(before.take(n + 1).last() == before[n]);
            }
            if is_expired(&self.entries[i], now) {
                self.entries.remove(i);
                assert(self.entries@ =~= head + before.skip(n + 1));
            } else {
                i = i + 1;
                assert(self.entries@ =~= head.push(before[n]) + before.skip(n + 1));
            }
            proof {
                done@ = n + 1;
            }
        }
        proof {
            assert(before.skip(done@).len() == 0);
            assert(before.take(done@) =~= before);
            assert(self.entries@ =~= fresh(before, now));
        }
    }

    /// Drops the oldest captures until `incoming` bytes fit beside the rest.
    /// Where they can never fit, everything is dropped.
    pub fn make_room(&mut self, incoming: usize)
        ensures
            final(self).entries@ == with_room(old(self).entries@, incoming as int),
    {
        if incoming > CAPTURE_PIXEL_BUDGET_BYTES {
            self.entries.clear();
            assert(self.entries@ =~= Seq::<PreparedCapture>::empty());
            return ;
        }
        let ghost start = self.entries@;
        let mut full = self.over_budget(incoming);
        while self.entries.len() > 0 && full
            invariant
                incoming <= CAPTURE_PIXEL_BUDGET_BYTES,
                with_room(start, incoming as int) == with_room(self.entries@, incoming as int),
                full == (total_bytes(self.entries@) + incoming > CAPTURE_PIXEL_BUDGET_BYTES),
            decreases self.entries@.len(),
        {
            let at: usize = self.oldest_place();
            proof {
                lemma_oldest(self.entries@);
            }
            self.entries.remove(at);
            full = self.over_budget(incoming);
        }
    }

    fn over_budget(&self, incoming: usize) -> (result: bool)
        requires
            incoming <= CAPTURE_PIXEL_BUDGET_BYTES,
        ensures
            result == (total_bytes(self.entries@) + incoming > CAPTURE_PIXEL_BUDGET_BYTES),
    {
        let mut left: usize = CAPTURE_PIXEL_BUDGET_BYTES - incoming;
        let mut i: usize = 0;
        assert(self.entries@.take(0) =~= Seq::<PreparedCapture>::empty());
        while i < self.entries.len()
            invariant
                i <= self.entries@.len(),
                left <= CAPTURE_PIXEL_BUDGET_BYTES - incoming,
                incoming <= CAPTURE_PIXEL_BUDGET_BYTES,
                total_bytes(self.entries@.take(i as int)) + left + incoming
                    == CAPTURE_PIXEL_BUDGET_BYTES,
            decreases self.entries@.len() - i,
        {
            let size: usize = self.entries[i].rgb.len();
            proof {
                assert(self.entries@.take(i + 1).drop_last() =~= self.entries@.take(i as int));
                assert(self.entries@.take(i + 1).last() == self.entries@[i as int]);
            }
            if size > left {
                proof {
                    lemma_total_grows(self.entries@, i + 1);
                }
                return true;
            }
            left = left - size;
            i = i + 1;
        }
        assert(self.entries@.take(self.entries@.len() as int) =~= self.entries@);
        false
    }

    fn oldest_place(&self) -> (result: usize)
        requires
            self.entries@.len() > 0,
        ensures
            result == oldest(self.entries@),
            result < self.entries@.len(),
    {
        let mut at: usize = 0;
        let mut i: usize = 1;
        while i < self.entries.len()
            invariant
                1 <= i <= self.entries@.len(),
                at < i,
                at == oldest(self.entries@.take(i as int)),
            decreases self.entries@.len() - i,
        {
            proof {
                assert(self.entries@.take(i + 1).drop_last() =~= self.entries@.take(i as int));
                assert(self.entries@.take(i + 1).last() == self.entries@[i as int]);
            }
            if self.entries[i].prepared_at < self.entries[at].prepared_at {
                at = i;
            }
            i = i + 1;
        }
        assert(self.entries@.take(self.entries@.len() as int) =~= self.entries@);
        at
    }

    /// What is held once a capture came.
    pub open spec fn captured_kept(
        before: Self,
        after: Self,
        screenshot_id: i64,
        image_hash: &str,
        resized: Option<DecodedImage>,
        now: u64,
    ) -> bool {
        match resized {
            Some(image) => if image_hash@.len() == 0 {
                after.entries@ == before.entries@
            } else {
                let room = with_room(
                    fresh(before.entries@, now),
                    image.rgb@.len() as int,
                );
                let rest = without(room, image_hash@);
                &&& after.entries@.len() == rest.len() + 1
                &&& after.entries@.drop_last() == rest
                &&& after.entries@.last().image_hash@ == image_hash@
                &&& after.entries@.last().screenshot_id == screenshot_id
                &&& after.entries@.last().width == image.width
                &&& after.entries@.last().height == image.height
                &&& after.entries@.last().rgb == image.rgb
                &&& after.entries@.last().prepared_at == now
            },
            None => after.entries@ == before.entries@,
        }
    }

    /// Keeps the pixels of a capture that were resized to the input of the
    /// model. Without a hash or without pixels nothing is kept.
    pub fn remember_captured_pixels(
        &mut self,
        screenshot_id: i64,
        image_hash: &str,
        resized: Option<DecodedImage>,
        now: u64,
    )
        ensures
            Self::captured_kept(*old(self), *final(self), screenshot_id, image_hash, resized, now),
    {
        let image = match resized {
            Some(image) => image,
            None => {
                return ;
            },
        };
        let hash = text::chars_of(image_hash);
        if hash.len() == 0 {
            return ;
        }
        self.drop_expired(now);
        self.make_room(image.rgb.len());
        let ghost rest = without(self.entries@, image_hash@);
        self.insert(
            PreparedCapture {
                image_hash: image_hash.to_owned(),
                screenshot_id,
                width: image.width,
                height: image.height,
                rgb: image.rgb,
                prepared_at: now,
            },
        );
        proof {
            assert(self.entries@.drop_last() =~= rest);
        }
    }

    /// The screenshot that a capture belongs to, if it is still held.
    pub fn prepared_screenshot_id(&mut self, image_hash: &str, now: u64) -> (result: Option<i64>)
        ensures
            final(self).entries@ == fresh(old(self).entries@, now),
            result == match held(fresh(old(self).entries@, now), image_hash@) {
                Some(entry) => Some(entry.screenshot_id),
                None => None,
            },
    {
        self.drop_expired(now);
        let at: usize = self.position(image_hash);
        if at < self.entries.len() {
            Some(self.entries[at].screenshot_id)
        } else {
            None
        }
    }

    /// The pixels of an image, if they are held and not too old.
    pub fn prepared_image(&self, image_hash: &str, now: u64) -> (result: Option<DecodedImage>)
        ensures
            match held(self.entries@, image_hash@) {
                Some(entry) => if expired(entry, now) {
                    result is None
                } else {
                    &&& result is Some
                    &&& result->0.width == entry.width
                    &&& result->0.height == entry.height
                    &&& result->0.rgb@ == entry.rgb@
                },
                None => result is None,
            },
    {
        let at: usize = self.position(image_hash);
        if at >= self.entries.len() || is_expired(&self.entries[at], now) {
            return None;
        }
        let entry = &self.entries[at];
        let mut rgb: Vec<u8> = Vec::new();
        crate::codec::push_bytes(&mut rgb, entry.rgb.as_slice());
        assert(rgb@ =~= entry.rgb@);
        Some(DecodedImage { width: entry.width, height: entry.height, rgb })
    }

    /// Lets the pixels of an image go.
    pub fn forget_prepared(&mut self, image_hash: &str)
        ensures
            final(self).entries@ == without(old(self).entries@, image_hash@),
    {
        let at: usize = self.position(image_hash);
        if at < self.entries.len() {
            self.entries.remove(at);
        }
    }

    /// Some capture is held that is not too old.
    pub fn has_prepared_captures(&mut self, now: u64) -> (result: bool)
        ensures
            final(self).entries@ == fresh(old(self).entries@, now),
            result == (fresh(old(self).entries@, now).len() > 0),
    {
        self.drop_expired(now);
        self.entries.len() > 0
    }
}

proof fn lemma_total_grows(entries: Seq<PreparedCapture>, n: int)
    requires
        0 <= n <= entries.len(),
    ensures
        0 <= total_bytes(entries.take(n)) <= total_bytes(entries),
    decreases entries.len(),
{
    if n < entries.len() {
        lemma_total_grows(entries.drop_last(), n);
        assert(entries.drop_last().take(n) =~= entries.take(n));
    } else {
        assert(entries.take(n) =~= entries);
        if entries.len() > 0 {
            lemma_total_grows(entries.drop_last(), entries.len() - 1);
            assert(entries.drop_last().take(entries.len() - 1) =~= entries.drop_last());
        }
    }
}

proof fn lemma_fresh_members(entries: Seq<PreparedCapture>, now: u64)
    ensures
        forall|i: int|
            0 <= i < fresh(entries, now).len() ==> !expired(#[trigger] fresh(entries, now)[i], now)
                && entries.contains(fresh(entries, now)[i]),
    decreases entries.len(),
{
    if entries.len() > 0 {
        let head = entries.drop_last();
        lemma_fresh_members(head, now);
        let all = fresh(entries, now);
        let rest = fresh(head, now);
        assert forall|i: int| 0 <= i < all.len() implies !expired(#[trigger] all[i], now)
            && entries.contains(all[i]) by {
            if i < rest.len() {
                assert(all[i] == rest[i]);
                let k = choose|k: int| 0 <= k < head.len() && head[k] == rest[i];
                assert(entries[k] == rest[i]);
            } else {
                assert(entries[entries.len() - 1] == entries.last());
            }
        }
    }
}

/// No pixels outlive their time: once the expired captures were dropped, every
/// one that is left is young enough, and was held before.
pub proof fn law_pixels_expire(entries: Seq<PreparedCapture>, now: u64, left: PreparedCapture)
    requires
        fresh(entries, now).contains(left),
    ensures
        now < left.prepared_at + CAPTURE_PIXEL_TTL_MS,
        entries.contains(left),
{
    lemma_fresh_members(entries, now);
    let all = fresh(entries, now);
    let i = choose|i: int| 0 <= i < all.len() && all[i] == left;
    assert(!expired(all[i], now));
}

/// What is young enough stays: a capture of the last six hours is not dropped
/// for its age.
pub proof fn law_young_pixels_stay(entries: Seq<PreparedCapture>, now: u64, i: int)
    requires
        0 <= i < entries.len(),
        now < entries[i].prepared_at + 6 * 60 * 60 * 1000,
    ensures
        fresh(entries, now).contains(entries[i]),
    decreases entries.len(),
{
    let head = entries.drop_last();
    let all = fresh(entries, now);
    if i < head.len() {
        law_young_pixels_stay(head, now, i);
        assert(head[i] == entries[i]);
        let k = choose|k: int| 0 <= k < fresh(head, now).len() && fresh(head, now)[k] == head[i];
        assert(all[k] == entries[i]);
    } else {
        assert(all[all.len() - 1] == entries[i]);
    }
}

/// Nothing is dropped while there is room: the captures and what comes take at
/// most sixty-four mebibytes together. What comes alone takes more, and all go.
pub proof fn law_nothing_goes_while_there_is_room(entries: Seq<PreparedCapture>, incoming: int)
    ensures
        0 <= incoming && total_bytes(entries) + incoming <= 64 * 1024 * 1024 ==> with_room(
            entries,
            incoming,
        ) == entries,
        incoming > 64 * 1024 * 1024 ==> with_room(entries, incoming).len() == 0,
        0 <= incoming <= 64 * 1024 * 1024 ==> total_bytes(with_room(entries, incoming)) + incoming
            <= 64 * 1024 * 1024,
{
    if 0 <= incoming <= 64 * 1024 * 1024 {
        law_room_is_made(entries, incoming);
    }
    if entries.len() > 0 {
        lemma_total_grows(entries, 0);
        assert(entries.take(0) =~= Seq::<PreparedCapture>::empty());
        assert(total_bytes(entries.take(0)) == 0);
    }
}

/// Each image is held at most once: the images of the captures differ.
pub open spec fn images_differ(entries: Seq<PreparedCapture>) -> bool {
    forall|i: int, j: int|
        0 <= i < j < entries.len() ==> (#[trigger] entries[i]).image_hash@ != (
        #[trigger] entries[j]).image_hash@
}

proof fn lemma_place_of(entries: Seq<PreparedCapture>, image_hash: Seq<char>)
    ensures
        0 <= place_of(entries, image_hash) <= entries.len(),
        forall|i: int|
            0 <= i < place_of(entries, image_hash) ==> (#[trigger] entries[i]).image_hash@
                != image_hash,
        place_of(entries, image_hash) < entries.len() ==> entries[place_of(
            entries,
            image_hash,
        )].image_hash@ == image_hash,
    decreases entries.len(),
{
    if entries.len() > 0 && entries[0].image_hash@ != image_hash {
        let rest = entries.drop_first();
        lemma_place_of(rest, image_hash);
        let at = place_of(entries, image_hash);
        assert forall|i: int| 0 <= i < at implies (#[trigger] entries[i]).image_hash@
            != image_hash by {
            if i > 0 {
                assert(rest[i - 1] == entries[i]);
            }
        }
        if at < entries.len() {
            assert(rest[at - 1] == entries[at]);
        }
    }
}

/// What is held of an image is its capture, and none where there is none.
pub proof fn law_captures_are_found_by_their_image(
    entries: Seq<PreparedCapture>,
    image_hash: Seq<char>,
    i: int,
)
    requires
        images_differ(entries),
    ensures
        0 <= i < entries.len() && entries[i].image_hash@ == image_hash ==> held(entries, image_hash)
            == Some(entries[i]),
        (forall|j: int| 0 <= j < entries.len() ==> (#[trigger] entries[j]).image_hash@
            != image_hash) ==> held(entries, image_hash) is None,
{
    lemma_place_of(entries, image_hash);
    let at = place_of(entries, image_hash);
    if 0 <= i < entries.len() && entries[i].image_hash@ == image_hash {
        if at < i {
            assert(entries[at].image_hash@ != entries[i].image_hash@);
        }
    }
}

/// A capture that is kept anew takes the place of that of the same image, and is
/// found; one that is forgotten is not. The captures of other images stay.
pub proof fn law_kept_captures_replace_older_ones(
    entries: Seq<PreparedCapture>,
    entry: PreparedCapture,
    other: Seq<char>,
)
    requires
        images_differ(entries),
    ensures
        ({
            let image_hash = entry.image_hash@;
            let after = without(entries, image_hash).push(entry);
            &&& images_differ(after)
            &&& held(after, image_hash) == Some(entry)
            &&& held(without(entries, image_hash), image_hash) is None
            &&& other != image_hash ==> held(after, other) == held(entries, other)
                && held(without(entries, image_hash), other) == held(entries, other)
        }),
{
    let image_hash = entry.image_hash@;
    let at = place_of(entries, image_hash);
    lemma_place_of(entries, image_hash);
    let rest = without(entries, image_hash);
    let after = rest.push(entry);
    assert forall|i: int| 0 <= i < rest.len() implies (#[trigger] rest[i]).image_hash@
        != image_hash by {
        if at < entries.len() {
            if i < at {
                assert(rest[i] == entries[i]);
            } else {
                assert(rest[i] == entries[i + 1]);
                assert(entries[at].image_hash@ != entries[i + 1].image_hash@);
            }
        }
    }
    assert forall|i: int, j: int| 0 <= i < j < rest.len() implies (#[trigger] rest[i]).image_hash@
        != (#[trigger] rest[j]).image_hash@ by {
        if at < entries.len() {
            let p = if i < at {
                i
            } else {
                i + 1
            };
            let q = if j < at {
                j
            } else {
                j + 1
            };
            assert(rest[i] == entries[p] && rest[j] == entries[q]);
        }
    }
    assert forall|i: int, j: int|
        0 <= i < j < after.len() implies (#[trigger] after[i]).image_hash@ != (
    #[trigger] after[j]).image_hash@ by {
        assert(after[i] == rest[i]);
        if j < rest.len() {
            assert(after[j] == rest[j]);
        }
    }
    assert(after[after.len() - 1] == entry);
    law_captures_are_found_by_their_image(after, image_hash, after.len() - 1);
    law_captures_are_found_by_their_image(rest, image_hash, 0);
    if other != image_hash {
        lemma_place_of(entries, other);
        let place = place_of(entries, other);
        if place < entries.len() {
            let now_at = if at < entries.len() && place > at {
                place - 1
            } else {
                place
            };
            assert(rest[now_at] == entries[place]);
            assert(after[now_at] == entries[place]);
            law_captures_are_found_by_their_image(rest, other, now_at);
            law_captures_are_found_by_their_image(after, other, now_at);
        } else {
            assert forall|j: int| 0 <= j < rest.len() implies (#[trigger] rest[j]).image_hash@
                != other by {
                if at < entries.len() && j >= at {
                    assert(rest[j] == entries[j + 1]);
                } else {
                    assert(rest[j] == entries[j]);
                }
            }
            assert forall|j: int| 0 <= j < after.len() implies (#[trigger] after[j]).image_hash@
                != other by {
                if j < rest.len() {
                    assert(after[j] == rest[j]);
                }
            }
            law_captures_are_found_by_their_image(rest, other, 0);
            law_captures_are_found_by_their_image(after, other, 0);
        }
    }
}

/// A capture that came is held last, with its pixels, from now on; one without
/// pixels or without a hash changes nothing.
pub proof fn law_new_captures_are_held(
    before: PreparedCaptures,
    after: PreparedCaptures,
    screenshot_id: i64,
    image_hash: &str,
    resized: Option<DecodedImage>,
    now: u64,
)
    requires
        PreparedCaptures::captured_kept(
            before,
            after,
            screenshot_id,
            image_hash,
            resized,
            now,
        ),
    ensures
        resized is None || image_hash@.len() == 0 ==> after.entries@ == before.entries@,
        resized matches Some(image) ==> image_hash@.len() > 0 ==> {
            let last = after.entries@.last();
            &&& after.entries@.len() > 0
            &&& last.image_hash@ == image_hash@
            &&& last.screenshot_id == screenshot_id
            &&& last.rgb == image.rgb
            &&& last.width == image.width && last.height == image.height
            &&& last.prepared_at == now
        },
{
}

} // verus!
