//! Fetching a device's own description from it: what is asked for next, and what
//! the replies make up.
//!
//! The device shows the description as objects of its extended identification:
//! the first says whether there is one, those behind it hold its text in pieces.

use crate::pdu::{
    object_views, DeviceIdentification, ExceptionResponse, ObjectView,
    ReadDeviceIdentificationRequest, ReadDeviceIdentificationResponse, READ_DEVICE_ID_EXTENDED,
};
use crate::text;
use crate::wire::push_bytes;
use crate::DecodeError;
use vstd::prelude::*;

verus! {

/// The object that says whether there is a description.
pub const PRESENCE_OBJECT_ID: u8 = 0x80;

/// The object that holds the first piece of the description.
pub const FIRST_TOML_CHUNK_OBJECT_ID: u8 = 0x81;

/// Why no description was fetched.
#[derive(Debug, Clone, Copy, PartialEq, Eq, Structural)]
pub enum FetchFailure {
    /// No reply came.
    NoReply,
    /// The device answered with this exception.
    Exception(u8),
    /// The reply is no identification.
    Malformed,
    /// The device has no description to offer.
    NotOffered,
    /// The description is no UTF-8.
    NotUtf8,
}

/// How far a description is fetched: what to ask for next, and what came so far.
#[derive(Debug, PartialEq, Eq)]
pub struct DescriptionFetch {
    pub object_id: u8,
    pub received: Vec<u8>,
}

/// What to do after a reply: go on asking, or stop with the description or with
/// why there is none.
#[derive(Debug, PartialEq, Eq)]
pub enum FetchStep {
    Ask(DescriptionFetch),
    Fetched(String),
    Failed(FetchFailure),
}

/// What a [`FetchStep`] says.
pub ghost enum Step {
    Ask { object_id: u8, received: Seq<u8> },
    Fetched(Seq<char>),
    Failed(FetchFailure),
}

impl View for FetchStep {
    type V = Step;

    open spec fn view(&self) -> Step {
        match self {
            FetchStep::Ask(fetch) => Step::Ask {
                object_id: fetch.object_id,
                received: fetch.received@,
            },
            FetchStep::Fetched(description) => Step::Fetched(description@),
            FetchStep::Failed(failure) => Step::Failed(*failure),
        }
    }
}

/// The pieces of the description among `objects`, joined; nothing where an object
/// says that there is none. Other objects do not matter.
pub open spec fn pieces(objects: Seq<ObjectView>) -> Option<Seq<u8>>
    decreases objects.len(),
{
    if objects.len() == 0 {
        Some(Seq::empty())
    } else {
        let (id, value) = objects.last();
        match pieces(objects.drop_last()) {
            None => None,
            Some(front) => if id == PRESENCE_OBJECT_ID {
                if value.len() > 0 && value[0] == 1 {
                    Some(front)
                } else {
                    None
                }
            } else if id >= FIRST_TOML_CHUNK_OBJECT_ID {
                Some(front + value)
            } else {
                Some(front)
            },
        }
    }
}

/// The request for the objects from `object_id` on.
pub open spec fn fetch_request(object_id: u8) -> Seq<u8> {
    (ReadDeviceIdentificationRequest {
        read_device_id_code: READ_DEVICE_ID_EXTENDED,
        object_id,
    }).message()
}

/// What to do after `reply`, where `received` came before.
pub open spec fn step(received: Seq<u8>, reply: Option<Seq<u8>>) -> Step {
    match reply {
        None => Step::Failed(FetchFailure::NoReply),
        Some(bytes) => match ExceptionResponse::parsed(bytes) {
            Ok(exception) => Step::Failed(FetchFailure::Exception(exception.exception_code)),
            Err(_) => match DeviceIdentification::parsed(bytes) {
                Err(_) => Step::Failed(FetchFailure::Malformed),
                Ok(response) => match pieces(response.objects) {
                    None => Step::Failed(FetchFailure::NotOffered),
                    Some(more) => if response.more_follows {
                        Step::Ask {
                            object_id: response.next_object_id,
                            received: received + more,
                        }
                    } else if vstd::utf8::valid_utf8(received + more) {
                        Step::Fetched(vstd::utf8::decode_utf8(received + more))
                    } else {
                        Step::Failed(FetchFailure::NotUtf8)
                    },
                },
            },
        },
    }
}

proof fn lemma_refused_stays(objects: Seq<ObjectView>, n: int)
    requires
        0 <= n <= objects.len(),
        pieces(objects.take(n)) is None,
    ensures
        pieces(objects) is None,
    decreases objects.len() - n,
{
    if n < objects.len() {
        assert(objects.take(n + 1).drop_last() =~= objects.take(n));
        lemma_refused_stays(objects, n + 1);
    } else {
        assert(objects.take(n) =~= objects);
    }
}

impl DescriptionFetch {
    /// Nothing was fetched yet.
    pub fn new() -> (fetch: Self)
        ensures
            fetch.object_id == PRESENCE_OBJECT_ID,
            fetch.received@ == Seq::<u8>::empty(),
    {
        DescriptionFetch { object_id: PRESENCE_OBJECT_ID, received: Vec::new() }
    }

    /// The request for what is to be fetched next.
    pub fn request(&self) -> (request: Vec<u8>)
        ensures
            request@ == fetch_request(self.object_id),
    {
        ReadDeviceIdentificationRequest {
            read_device_id_code: READ_DEVICE_ID_EXTENDED,
            object_id: self.object_id,
        }.encode()
    }

    /// Takes the reply to the request, or that none came.
    pub fn receive(self, reply: Option<&[u8]>) -> (next: FetchStep)
        ensures
            next@ == step(
                self.received@,
                match reply {
                    Some(bytes) => Some(bytes@),
                    None => None,
                },
            ),
    {
        let response_pdu = match reply {
            Some(response_pdu) => response_pdu,
            None => return FetchStep::Failed(FetchFailure::NoReply),
        };
        if let Ok(exception) = ExceptionResponse::decode(response_pdu) {
            return FetchStep::Failed(FetchFailure::Exception(exception.exception_code));
        }
        let response = match ReadDeviceIdentificationResponse::decode(response_pdu) {
            Ok(response) => response,
            Err(_) => return FetchStep::Failed(FetchFailure::Malformed),
        };
        let ghost objects = object_views(response.objects@);
        let ghost before = self.received@;
        let mut received = self.received;
        let mut i: usize = 0;
        assert(objects.take(0) =~= Seq::<ObjectView>::empty());
        assert(received@ =~= before + Seq::<u8>::empty());
        while i < response.objects.len()
            invariant
                i <= response.objects@.len(),
                objects == object_views(response.objects@),
                pieces(objects.take(i as int)) matches Some(more) && received@ == before + more,
                DeviceIdentification::parsed(response_pdu@) == Ok::<
                    DeviceIdentification,
                    DecodeError,
                >(response@),
                ExceptionResponse::parsed(response_pdu@) is Err,
                reply == Some(response_pdu),
            decreases response.objects@.len() - i,
        {
            let object = &response.objects[i];
            proof {
                assert(objects.take(i + 1).drop_last() =~= objects.take(i as int));
                assert(objects.take(i + 1).last() == (object.id, object.value@));
            }
            if object.id == PRESENCE_OBJECT_ID {
                if object.value.len() == 0 || object.value[0] != 1 {
                    proof {
                        lemma_refused_stays(objects, i + 1);
                    }
                    return FetchStep::Failed(FetchFailure::NotOffered);
                }
            } else if object.id >= FIRST_TOML_CHUNK_OBJECT_ID {
                push_bytes(&mut received, object.value.as_slice());
                assert(received@ =~= before + (pieces(objects.take(i as int))->Some_0
                    + object.value@));
            }
            i = i + 1;
        }
        assert(objects.take(i as int) =~= objects);
        if response.more_follows {
            return FetchStep::Ask(
                DescriptionFetch { object_id: response.next_object_id, received },
            );
        }
        match text::text_from_utf8(received) {
            Some(description) => FetchStep::Fetched(description),
            None => FetchStep::Failed(FetchFailure::NotUtf8),
        }
    }
}

/// Where a whole exchange ends whose replies are `replies`; it goes on where it
/// asks for more than they hold.
pub open spec fn exchange(received: Seq<u8>, replies: Seq<Option<Seq<u8>>>) -> Step
    decreases replies.len(),
{
    if replies.len() == 0 {
        Step::Ask { object_id: PRESENCE_OBJECT_ID, received }
    } else {
        match step(received, replies[0]) {
            Step::Ask { object_id, received } => if replies.len() == 1 {
                Step::Ask { object_id, received }
            } else {
                exchange(received, replies.drop_first())
            },
            last => last,
        }
    }
}

/// The pieces that pages of objects hold, joined.
pub open spec fn joined_pieces(pages: Seq<DeviceIdentification>) -> Seq<u8>
    decreases pages.len(),
{
    if pages.len() == 0 {
        Seq::empty()
    } else {
        pieces(pages[0].objects)->Some_0 + joined_pieces(pages.drop_first())
    }
}

/// Whether `page` can be sent: it counts its objects, and the bytes of each, in a
/// byte.
pub open spec fn sendable(page: DeviceIdentification) -> bool {
    &&& page.objects.len() <= 255
    &&& forall|i: int| 0 <= i < page.objects.len() ==> (#[trigger] page.objects[i]).1.len() <= 255
}

/// The values of those of `objects` with ids above 0x80, one behind the other.
pub open spec fn text_of(objects: Seq<ObjectView>) -> Seq<u8> {
    objects.filter(|object: ObjectView| object.0 > 0x80).map_values(
        |object: ObjectView| object.1,
    ).flatten()
}

proof fn lemma_text_of_front(objects: Seq<ObjectView>)
    requires
        objects.len() > 0,
    ensures
        text_of(objects) == if objects.last().0 > 0x80 {
            text_of(objects.drop_last()) + objects.last().1
        } else {
            text_of(objects.drop_last())
        },
{
    reveal(Seq::filter);
    let above = |object: ObjectView| object.0 > 0x80;
    let value = |object: ObjectView| object.1;
    let front = objects.drop_last().filter(above).map_values(value);
    if objects.last().0 > 0x80 {
        assert(objects.filter(above).map_values(value) =~= front.push(objects.last().1));
        front.lemma_flatten_push(objects.last().1);
    }
}

/// What is fetched of a page is the values of all its objects with ids from 0x81 up,
/// in the order in which they came, where each object 0x80 has a value that starts
/// with 1; where one has not, nothing is fetched.
pub proof fn law_all_pieces_are_joined(objects: Seq<ObjectView>)
    ensures
        (forall|i: int|
            0 <= i < objects.len() && (#[trigger] objects[i]).0 == 0x80 ==> objects[i].1.len() > 0
                && objects[i].1[0] == 1) ==> pieces(objects) == Some(text_of(objects)),
        (exists|i: int|
            0 <= i < objects.len() && (#[trigger] objects[i]).0 == 0x80 && !(objects[i].1.len() > 0
                && objects[i].1[0] == 1)) ==> pieces(objects) is None,
    decreases objects.len(),
{
    reveal(Seq::filter);
    if objects.len() == 0 {
        assert(text_of(objects) =~= Seq::<u8>::empty());
    } else {
        let front = objects.drop_last();
        law_all_pieces_are_joined(front);
        lemma_text_of_front(objects);
        assert(objects.last() == objects[objects.len() - 1]);
        assert forall|i: int| 0 <= i < front.len() implies front[i] == #[trigger] objects[i] by {}
        if exists|i: int|
            0 <= i < objects.len() && (#[trigger] objects[i]).0 == 0x80 && !(objects[i].1.len() > 0
                && objects[i].1[0] == 1) {
            let i = choose|i: int|
                0 <= i < objects.len() && (#[trigger] objects[i]).0 == 0x80 && !(objects[i].1.len()
                    > 0 && objects[i].1[0] == 1);
            if i < front.len() {
                assert(front[i] == objects[i]);
            }
        } else {
            assert forall|i: int|
                0 <= i < front.len() && (#[trigger] front[i]).0 == 0x80 implies front[i].1.len() > 0
                && front[i].1[0] == 1 by {
                assert(front[i] == objects[i]);
            }
        }
    }
}

/// No byte of an object with an id above 0x80 is lost or added: what is fetched is as
/// long as all their values together.
pub proof fn law_length_of_what_is_fetched(objects: Seq<ObjectView>)
    requires
        pieces(objects) is Some,
    ensures
        pieces(objects)->Some_0.len() == objects.fold_left(
            0int,
            |sum: int, object: ObjectView|
                if object.0 > 0x80 {
                    sum + object.1.len()
                } else {
                    sum
                },
        ),
    decreases objects.len(),
{
    if objects.len() > 0 {
        law_length_of_what_is_fetched(objects.drop_last());
    }
}

/// Where more follows a page, the next request asks for the object that the page says
/// comes next, and keeps what came so far in front of what the page holds.
pub proof fn law_next_object_is_asked_for(received: Seq<u8>, page: DeviceIdentification)
    requires
        sendable(page),
        page.more_follows,
        forall|i: int|
            0 <= i < page.objects.len() && (#[trigger] page.objects[i]).0 == 0x80
                ==> page.objects[i].1.len() > 0 && page.objects[i].1[0] == 1,
    ensures
        step(received, Some(page.message())) == (Step::Ask {
            object_id: page.next_object_id,
            received: received + text_of(page.objects),
        }),
{
    page.law_round_trip();
    assert(page.message()[0] == crate::pdu::FUNCTION_CODE_ENCAPSULATED_INTERFACE_TRANSPORT);
    law_all_pieces_are_joined(page.objects);
}

/// A page whose object 0x80 does not say 1 ends the fetch: no description is offered,
/// whatever came before it and whatever else the page holds.
pub proof fn law_absence_is_reported(received: Seq<u8>, page: DeviceIdentification, i: int)
    requires
        sendable(page),
        0 <= i < page.objects.len(),
        page.objects[i].0 == 0x80,
        page.objects[i].1.len() == 0 || page.objects[i].1[0] != 1,
    ensures
        step(received, Some(page.message())) == Step::Failed(FetchFailure::NotOffered),
{
    page.law_round_trip();
    assert(page.message()[0] == crate::pdu::FUNCTION_CODE_ENCAPSULATED_INTERFACE_TRANSPORT);
    law_all_pieces_are_joined(page.objects);
}

proof fn lemma_texts_join(a: Seq<ObjectView>, b: Seq<ObjectView>)
    ensures
        text_of(a + b) == text_of(a) + text_of(b),
    decreases b.len(),
{
    reveal(Seq::filter);
    if b.len() == 0 {
        assert(a + b =~= a);
        assert(text_of(b) =~= Seq::<u8>::empty());
        assert(text_of(a) + text_of(b) =~= text_of(a));
    } else {
        lemma_texts_join(a, b.drop_last());
        lemma_text_of_front(b);
        lemma_text_of_front(a + b);
        assert((a + b).drop_last() =~= a + b.drop_last());
        assert((a + b).last() == b.last());
        assert(text_of(a) + (text_of(b.drop_last()) + b.last().1) =~= text_of(a) + text_of(
            b.drop_last(),
        ) + b.last().1);
    }
}

proof fn lemma_joined_text(pages: Seq<DeviceIdentification>)
    requires
        forall|i: int| 0 <= i < pages.len() ==> pieces((#[trigger] pages[i]).objects) is Some,
    ensures
        joined_pieces(pages) == text_of(
            pages.map_values(|page: DeviceIdentification| page.objects).flatten(),
        ),
    decreases pages.len(),
{
    reveal(Seq::filter);
    let objects = pages.map_values(|page: DeviceIdentification| page.objects);
    if pages.len() == 0 {
        assert(objects.flatten() =~= Seq::<ObjectView>::empty());
        assert(text_of(objects.flatten()) =~= Seq::<u8>::empty());
    } else {
        let rest = pages.drop_first();
        assert(objects.drop_first() =~= rest.map_values(
            |page: DeviceIdentification| page.objects,
        ));
        assert(objects.first() == pages[0].objects);
        lemma_texts_join(pages[0].objects, objects.drop_first().flatten());
        assert forall|i: int| 0 <= i < rest.len() implies pieces(
            (#[trigger] rest[i]).objects,
        ) is Some by {
            assert(rest[i] == pages[i + 1]);
        }
        lemma_joined_text(rest);
        law_all_pieces_are_joined(pages[0].objects);
    }
}

/// However a device spreads the objects of its description over pages, all but the
/// last of which say that more follows, the text fetched is the values of all objects
/// with ids above 0x80, in the order in which they came.
pub proof fn law_whole_description_is_fetched(pages: Seq<DeviceIdentification>)
    requires
        pages.len() > 0,
        forall|i: int|
            0 <= i < pages.len() ==> sendable(#[trigger] pages[i]) && pages[i].more_follows == (i
                < pages.len() - 1),
        forall|i: int, j: int|
            0 <= i < pages.len() && 0 <= j < pages[i].objects.len() && (
            #[trigger] pages[i].objects[j]).0 == 0x80 ==> pages[i].objects[j].1.len() > 0
                && pages[i].objects[j].1[0] == 1,
        vstd::utf8::valid_utf8(
            text_of(pages.map_values(|page: DeviceIdentification| page.objects).flatten()),
        ),
    ensures
        exchange(
            Seq::empty(),
            pages.map_values(|page: DeviceIdentification| Some(page.message())),
        ) == Step::Fetched(
            vstd::utf8::decode_utf8(
                text_of(pages.map_values(|page: DeviceIdentification| page.objects).flatten()),
            ),
        ),
{
    assert forall|i: int| 0 <= i < pages.len() implies pieces(
        (#[trigger] pages[i]).objects,
    ) is Some by {
        law_all_pieces_are_joined(pages[i].objects);
    }
    lemma_joined_text(pages);
    assert(Seq::<u8>::empty() + joined_pieces(pages) =~= joined_pieces(pages));
    law_pages_join(Seq::empty(), pages);
}

/// The request for what comes next is the extended identification from that object on.
pub proof fn law_fetch_request(object_id: u8)
    ensures
        fetch_request(object_id) == seq![0x2Bu8, 0x0E, 0x03, object_id],
{
    assert(fetch_request(object_id) =~= seq![0x2Bu8, 0x0E, 0x03, object_id]);
}

/// A description that a device sends in any number of pages, all but the last of
/// which say that more follows, is put together again.
pub proof fn law_pages_join(received: Seq<u8>, pages: Seq<DeviceIdentification>)
    requires
        pages.len() > 0,
        forall|i: int|
            0 <= i < pages.len() ==> sendable(#[trigger] pages[i]) && pieces(
                pages[i].objects,
            ) is Some && pages[i].more_follows == (i < pages.len() - 1),
        vstd::utf8::valid_utf8(received + joined_pieces(pages)),
    ensures
        exchange(
            received,
            pages.map_values(|page: DeviceIdentification| Some(page.message())),
        ) == Step::Fetched(vstd::utf8::decode_utf8(received + joined_pieces(pages))),
    decreases pages.len(),
{
    let replies = pages.map_values(|page: DeviceIdentification| Some(page.message()));
    let page = pages[0];
    assert(sendable(pages[0]));
    page.law_round_trip();
    assert(page.message()[0] == crate::pdu::FUNCTION_CODE_ENCAPSULATED_INTERFACE_TRANSPORT);
    assert(ExceptionResponse::parsed(page.message()) is Err);
    let rest = pages.drop_first();
    let more = pieces(page.objects)->Some_0;
    assert(received + joined_pieces(pages) =~= received + more + joined_pieces(rest));
    if pages.len() == 1 {
        assert(joined_pieces(rest) =~= Seq::<u8>::empty());
        assert(received + joined_pieces(pages) =~= received + more);
    } else {
        assert forall|i: int| 0 <= i < rest.len() implies sendable(#[trigger] rest[i]) && pieces(
            rest[i].objects,
        ) is Some && rest[i].more_follows == (i < rest.len() - 1) by {
            assert(rest[i] == pages[i + 1]);
        }
        law_pages_join(received + more, rest);
        assert(replies.drop_first() =~= rest.map_values(
            |page: DeviceIdentification| Some(page.message()),
        ));
    }
}

/// An exchange ends at a reply that is an exception, is malformed, offers nothing or
/// does not come, whatever was received before and whatever would follow.
pub proof fn law_failure_ends_the_exchange(
    received: Seq<u8>,
    replies: Seq<Option<Seq<u8>>>,
)
    requires
        replies.len() > 0,
        step(received, replies[0]) is Failed,
    ensures
        exchange(received, replies) == step(received, replies[0]),
{
}

/// Why a fetch fails, by the reply: none came; its first bit is set, and its second byte is
/// the code of an exception; it does not start as an identification does; or what was put
/// together is no UTF-8.
pub proof fn law_failures_of_a_fetch(received: Seq<u8>, reply: Seq<u8>, page: DeviceIdentification)
    ensures
        step(received, None) == Step::Failed(FetchFailure::NoReply),
        reply.len() >= 2 && reply[0] >= 128 ==> step(received, Some(reply)) == Step::Failed(
            FetchFailure::Exception(reply[1]),
        ),
        reply.len() < 2 ==> step(received, Some(reply)) == Step::Failed(FetchFailure::Malformed),
        reply.len() >= 2 && reply[0] < 128 && !(reply[0] == 0x2B && reply[1] == 0x0E) ==> step(
            received,
            Some(reply),
        ) == Step::Failed(FetchFailure::Malformed),
        sendable(page) && !page.more_follows && (forall|i: int|
            0 <= i < page.objects.len() && (#[trigger] page.objects[i]).0 == 0x80
                ==> page.objects[i].1.len() > 0 && page.objects[i].1[0] == 1)
            && !vstd::utf8::valid_utf8(received + text_of(page.objects)) ==> step(
            received,
            Some(page.message()),
        ) == Step::Failed(FetchFailure::NotUtf8),
{
    if sendable(page) {
        page.law_round_trip();
        assert(page.message()[0] == crate::pdu::FUNCTION_CODE_ENCAPSULATED_INTERFACE_TRANSPORT);
        law_all_pieces_are_joined(page.objects);
    }
}

} // verus!
