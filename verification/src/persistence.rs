//! What the sequencer keeps in its queue database.
use crate::bytes::{
    be_bytes, be_value, law_be_bytes_order, law_be_round_trip, lemma_be_bytes_len, lemma_u64_width,
    lex_less, u64_be, u64_from_be,
};
use crate::text::join;
use crate::types::PendingBlock;
use vstd::prelude::*;
use vstd::string::StringSliceAdditionalSpecFns;

verus! {

/// The parts of the database.
#[derive(Debug, Clone, Copy, PartialEq, Eq)]
pub enum Family {
    /// Blocks that wait for a proof.
    Pending,
    /// Blocks that could not be proven.
    Failed,
    /// The block counter.
    Meta,
}

impl Family {
    /// The name of the part.
    pub open spec fn text(self) -> Seq<char> {
        match self {
            Family::Pending => "pending_blocks"@,
            Family::Failed => "failed_blocks"@,
            Family::Meta => "meta"@,
        }
    }

    /// The name of the part.
    pub fn name(&self) -> (name: &'static str)
        ensures
            name@ == self.text(),
    {
        match self {
            Family::Pending => "pending_blocks",
            Family::Failed => "failed_blocks",
            Family::Meta => "meta",
        }
    }
}

/// A change to the database.
#[derive(Debug, Clone, PartialEq, Eq)]
pub enum Write {
    Put { family: Family, key: Vec<u8>, value: Vec<u8> },
    Delete { family: Family, key: Vec<u8> },
}

/// What a `Write` does.
pub enum WriteView {
    Put { family: Family, key: Seq<u8>, value: Seq<u8> },
    Delete { family: Family, key: Seq<u8> },
}

impl View for Write {
    type V = WriteView;

    open spec fn view(&self) -> WriteView {
        match *self {
            Write::Put { family, key, value } => WriteView::Put { family, key: key@, value: value@ },
            Write::Delete { family, key } => WriteView::Delete { family, key: key@ },
        }
    }
}

/// What the database holds.
pub type Contents = Map<(Family, Seq<u8>), Seq<u8>>;

impl WriteView {
    /// What the database holds after the change.
    pub open spec fn on(self, contents: Contents) -> Contents {
        match self {
            WriteView::Put { family, key, value } => contents.insert((family, key), value),
            WriteView::Delete { family, key } => contents.remove((family, key)),
        }
    }
}

/// The first entry of the queue, if there is one, with its key and its value; or what the database
/// said went wrong.
pub type FirstEntry = Option<Result<(Vec<u8>, Vec<u8>), String>>;

/// What a `FirstEntry` says.
pub type FirstEntryView = Option<Result<(Seq<u8>, Seq<u8>), Seq<char>>>;

/// What a `FirstEntry` says.
pub open spec fn first_view(first: FirstEntry) -> FirstEntryView {
    match first {
        None => None,
        Some(Ok((key, value))) => Some(Ok((key@, value@))),
        Some(Err(message)) => Some(Err(message@)),
    }
}

/// The block to prove next, from the first entry of the queue.
pub open spec fn peeked(first: FirstEntryView) -> Result<Option<Seq<u8>>, Seq<char>> {
    match first {
        None => Ok(None),
        Some(Ok((_, value))) => Ok(Some(value)),
        Some(Err(message)) => Err("peek_pending iterator err: "@ + message),
    }
}

/// `first` is the entry of the queue whose key comes first in byte order, or nothing where the queue
/// is empty.
pub open spec fn is_first_pending(contents: Contents, first: Option<(Seq<u8>, Seq<u8>)>) -> bool {
    match first {
        None => forall|key: Seq<u8>| !#[trigger] contents.contains_key((Family::Pending, key)),
        Some((first_key, value)) => {
            &&& contents.contains_key((Family::Pending, first_key))
            &&& contents[(Family::Pending, first_key)] == value
            &&& forall|key: Seq<u8>| #[trigger]
                contents.contains_key((Family::Pending, key)) ==> !lex_less(key, first_key)
        },
    }
}

/// The key of a block: its number, big-endian.
pub open spec fn block_key(block_number: u64) -> Seq<u8> {
    be_bytes(block_number as nat, 8)
}

/// The key of the block counter.
pub open spec fn counter_key() -> Seq<u8> {
    "block_counter".spec_bytes()
}

/// The block counter that a stored value stands for: zero where there is none, or it is not eight
/// bytes long.
pub open spec fn counter_of(stored: Option<Seq<u8>>) -> nat {
    match stored {
        Some(value) => if value.len() == 8 {
            be_value(value)
        } else {
            0
        },
        None => 0,
    }
}

fn number_bytes(n: u64) -> (bytes: Vec<u8>)
    ensures
        bytes@ == be_bytes(n as nat, 8),
{
    let digits: [u8; 8] = u64_be(n);
    let mut bytes: Vec<u8> = Vec::new();
    bytes.extend_from_slice(&digits);
    assert(bytes@ =~= digits@);
    bytes
}

/// Where the block counter lies.
pub fn counter_location() -> (location: (Family, Vec<u8>))
    ensures
        location.0 == Family::Meta,
        location.1@ == counter_key(),
{
    let mut key: Vec<u8> = Vec::new();
    let name: &[u8] = "block_counter".as_bytes();
    key.extend_from_slice(name);
    assert(key@ =~= name@);
    (Family::Meta, key)
}

/// The queue of blocks, kept in a database. What is asked of it comes out as changes to the
/// database or is read off what the database holds; blocks go in and out encoded.
pub struct BlockQueueStore;

impl BlockQueueStore {
    /// Queues a block for its proof.
    pub fn push_pending(block: &PendingBlock, encoded: Vec<u8>) -> (write: Write)
        ensures
            write@ == (WriteView::Put {
                family: Family::Pending,
                key: block_key(block.block_number),
                value: encoded@,
            }),
    {
        Write::Put {
            family: Family::Pending,
            key: number_bytes(block.block_number),
            value: encoded,
        }
    }

    /// The block to prove next, from the first entry of the queue.
    pub fn peek_pending(first: FirstEntry) -> (result: Result<Option<Vec<u8>>, String>)
        ensures
            match result {
                Ok(Some(encoded)) => peeked(first_view(first)) == Ok::<
                    Option<Seq<u8>>,
                    Seq<char>,
                >(Some(encoded@)),
                Ok(None) => peeked(first_view(first)) == Ok::<Option<Seq<u8>>, Seq<char>>(None),
                Err(text) => peeked(first_view(first)) == Err::<Option<Seq<u8>>, Seq<char>>(text@),
            },
    {
        match first {
            None => Ok(None),
            Some(Ok((_, value))) => Ok(Some(value)),
            Some(Err(message)) => Err(join("peek_pending iterator err: ", message.as_str())),
        }
    }

    /// Takes a block out of the queue.
    pub fn remove_pending(block_number: u64) -> (write: Write)
        ensures
            write@ == (WriteView::Delete { family: Family::Pending, key: block_key(block_number) }),
    {
        Write::Delete { family: Family::Pending, key: number_bytes(block_number) }
    }

    /// Files a block that could not be proven.
    pub fn push_failed(block: &PendingBlock, encoded: Vec<u8>) -> (write: Write)
        ensures
            write@ == (WriteView::Put {
                family: Family::Failed,
                key: block_key(block.block_number),
                value: encoded@,
            }),
    {
        Write::Put {
            family: Family::Failed,
            key: number_bytes(block.block_number),
            value: encoded,
        }
    }

    /// The block counter, from what is stored.
    pub fn get_block_counter(stored: Option<Vec<u8>>) -> (counter: u64)
        ensures
            counter == counter_of(
                match stored {
                    Some(value) => Some(value@),
                    None => None,
                },
            ),
    {
        match stored {
            Some(value) => {
                if value.len() == 8 {
                    let digits: [u8; 8] = [
                        value[0],
                        value[1],
                        value[2],
                        value[3],
                        value[4],
                        value[5],
                        value[6],
                        value[7],
                    ];
                    assert(digits@ =~= value@);
                    u64_from_be(&digits)
                } else {
                    0
                }
            },
            None => 0,
        }
    }

    /// Stores the block counter.
    pub fn set_block_counter(count: u64) -> (write: Write)
        ensures
            write@ == (WriteView::Put {
                family: Family::Meta,
                key: counter_key(),
                value: be_bytes(count as nat, 8),
            }),
    {
        let (family, key): (Family, Vec<u8>) = counter_location();
        Write::Put { family, key, value: number_bytes(count) }
    }

    /// Queues a block and counts it. The two changes are to be made in one step.
    pub fn commit_optimistic_block(
        block: &PendingBlock,
        encoded: Vec<u8>,
        next_block_number: u64,
    ) -> (writes: (Write, Write))
        ensures
            writes.0@ == (WriteView::Put {
                family: Family::Pending,
                key: block_key(block.block_number),
                value: encoded@,
            }),
            writes.1@ == (WriteView::Put {
                family: Family::Meta,
                key: counter_key(),
                value: be_bytes(next_block_number as nat, 8),
            }),
    {
        (Self::push_pending(block, encoded), Self::set_block_counter(next_block_number))
    }
}

/// A counter that was stored is read back.
pub proof fn law_counter_round_trip(count: u64)
    ensures
        counter_of(Some(be_bytes(count as nat, 8))) == count,
{
    lemma_u64_width(count);
    law_be_round_trip(count as nat, 8);
    lemma_be_bytes_len(count as nat, 8);
}

/// The database, which keeps keys in byte order, has the pending block with the lowest number
/// first.
pub proof fn law_queue_is_in_block_order(earlier: u64, later: u64)
    requires
        earlier < later,
    ensures
        lex_less(block_key(earlier), block_key(later)),
{
    lemma_u64_width(later);
    law_be_bytes_order(earlier as nat, later as nat, 8);
}

/// Two blocks have different keys.
pub proof fn law_block_keys_differ(a: u64, b: u64)
    requires
        a != b,
    ensures
        block_key(a) != block_key(b),
{
    law_counter_round_trip(a);
    law_counter_round_trip(b);
}

/// The block is in this part of the database, encoded so.
pub open spec fn holds(contents: Contents, family: Family, block_number: u64, encoded: Seq<u8>) -> bool {
    contents.contains_key((family, block_key(block_number))) && contents[(
        family,
        block_key(block_number),
    )] == encoded
}

/// After a block was queued and counted, it is in the queue and the counter reads as it was set.
pub proof fn law_committed_block_is_pending(
    contents: Contents,
    queued: WriteView,
    counted: WriteView,
    block_number: u64,
    encoded: Seq<u8>,
    next_block_number: u64,
)
    requires
        queued == (WriteView::Put {
            family: Family::Pending,
            key: block_key(block_number),
            value: encoded,
        }),
        counted == (WriteView::Put {
            family: Family::Meta,
            key: counter_key(),
            value: be_bytes(next_block_number as nat, 8),
        }),
    ensures
        holds(counted.on(queued.on(contents)), Family::Pending, block_number, encoded),
        counted.on(queued.on(contents)).contains_key((Family::Meta, counter_key())),
        counter_of(Some(counted.on(queued.on(contents))[(Family::Meta, counter_key())]))
            == next_block_number,
{
    law_counter_round_trip(next_block_number);
}

/// A block that was taken out of the queue is no longer there, and every other block still is.
pub proof fn law_removed_block_is_gone(
    contents: Contents,
    block_number: u64,
    other: u64,
    encoded: Seq<u8>,
)
    requires
        other != block_number,
    ensures
        ({
            let after = (WriteView::Delete {
                family: Family::Pending,
                key: block_key(block_number),
            }).on(contents);
            &&& !after.contains_key((Family::Pending, block_key(block_number)))
            &&& holds(after, Family::Pending, other, encoded) <==> holds(
                contents,
                Family::Pending,
                other,
                encoded,
            )
        }),
{
    law_block_keys_differ(block_number, other);
}

/// A block that was filed as failed and then taken out of the queue is filed, and not in the queue.
pub proof fn law_given_up_block_is_filed(contents: Contents, block_number: u64, encoded: Seq<u8>)
    ensures
        ({
            let filed = (WriteView::Put {
                family: Family::Failed,
                key: block_key(block_number),
                value: encoded,
            }).on(contents);
            let after = (WriteView::Delete {
                family: Family::Pending,
                key: block_key(block_number),
            }).on(filed);
            &&& holds(after, Family::Failed, block_number, encoded)
            &&& !after.contains_key((Family::Pending, block_key(block_number)))
        }),
{
}

/// The block whose key comes first in the queue is the one that peeking gives, and no block in the
/// queue has a lower number.
pub proof fn law_peeked_block_is_the_lowest(
    contents: Contents,
    block_number: u64,
    encoded: Seq<u8>,
    other: u64,
)
    requires
        is_first_pending(contents, Some((block_key(block_number), encoded))),
    ensures
        peeked(Some(Ok((block_key(block_number), encoded)))) == Ok::<
            Option<Seq<u8>>,
            Seq<char>,
        >(Some(encoded)),
        holds(contents, Family::Pending, block_number, encoded),
        contents.contains_key((Family::Pending, block_key(other))) ==> block_number <= other,
{
    if contents.contains_key((Family::Pending, block_key(other))) && other < block_number {
        law_queue_is_in_block_order(other, block_number);
    }
}

/// Peeking gives nothing exactly where the queue is empty.
pub proof fn law_nothing_is_peeked_where_the_queue_is_empty(
    contents: Contents,
    first: Option<(Seq<u8>, Seq<u8>)>,
    key: Seq<u8>,
)
    requires
        is_first_pending(contents, first),
    ensures
        ({
            let entry: FirstEntryView = match first {
                Some(found) => Some(Ok(found)),
                None => None,
            };
            peeked(entry) == Ok::<Option<Seq<u8>>, Seq<char>>(None) <==> first is None
        }),
        first is None ==> !contents.contains_key((Family::Pending, key)),
        first matches Some((found, _)) ==> contents.contains_key((Family::Pending, found)),
{
}

/// The key of a block is eight bytes that read as its number.
pub proof fn law_block_key_reads_as_the_number(block_number: u64)
    ensures
        block_key(block_number).len() == 8,
        be_value(block_key(block_number)) == block_number,
{
    lemma_be_bytes_len(block_number as nat, 8);
    lemma_u64_width(block_number);
    law_be_round_trip(block_number as nat, 8);
}

/// A stored counter of eight bytes reads as their number, and anything else as zero.
pub proof fn law_counter_is_eight_bytes(value: Seq<u8>)
    ensures
        value.len() == 8 ==> counter_of(Some(value)) == be_value(value),
        value.len() != 8 ==> counter_of(Some(value)) == 0,
        counter_of(None) == 0,
        counter_key() == "block_counter".spec_bytes(),
{
}

/// Putting a value in makes it readable at its place, and deleting takes it out of its place; every
/// other place stays as it is.
pub proof fn law_write_changes_its_place_only(
    contents: Contents,
    family: Family,
    key: Seq<u8>,
    value: Seq<u8>,
    other: (Family, Seq<u8>),
)
    requires
        other != (family, key),
    ensures
        ({
            let after = (WriteView::Put { family, key, value }).on(contents);
            &&& after.contains_key((family, key)) && after[(family, key)] == value
            &&& after.contains_key(other) <==> contents.contains_key(other)
            &&& contents.contains_key(other) ==> after[other] == contents[other]
        }),
        ({
            let after = (WriteView::Delete { family, key }).on(contents);
            &&& !after.contains_key((family, key))
            &&& after.contains_key(other) <==> contents.contains_key(other)
            &&& contents.contains_key(other) ==> after[other] == contents[other]
        }),
{
}

/// Peeking gives the value of the entry that it is shown, whatever its key; nothing where there is
/// none; and what the database said where it failed.
pub proof fn law_peeking_gives_what_is_shown(key: Seq<u8>, value: Seq<u8>, message: Seq<char>)
    ensures
        peeked(Some(Ok((key, value)))) == Ok::<Option<Seq<u8>>, Seq<char>>(Some(value)),
        peeked(None) == Ok::<Option<Seq<u8>>, Seq<char>>(None),
        peeked(Some(Err(message))) == Err::<Option<Seq<u8>>, Seq<char>>(
            "peek_pending iterator err: "@ + message,
        ),
{
}

/// Entries and changes say what they hold, and the parts of the database have their names.
pub proof fn law_persistence_views(family: Family, key: Vec<u8>, value: Vec<u8>, message: String)
    ensures
        first_view(Some(Ok((key, value)))) == Some(
            Ok::<(Seq<u8>, Seq<u8>), Seq<char>>((key@, value@)),
        ),
        first_view(Some(Err(message))) == Some(Err::<(Seq<u8>, Seq<u8>), Seq<char>>(message@)),
        first_view(None) is None,
        (Write::Put { family, key, value })@ == (WriteView::Put {
            family,
            key: key@,
            value: value@,
        }),
        (Write::Delete { family, key })@ == (WriteView::Delete { family, key: key@ }),
        Family::Pending.text() == "pending_blocks"@,
        Family::Failed.text() == "failed_blocks"@,
        Family::Meta.text() == "meta"@,
{
}

} // verus!
