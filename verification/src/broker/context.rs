//! Context payloads.
use vstd::prelude::*;

use crate::text;
use crate::text::TextSet;
use crate::wire;
use crate::wire::{Decoder, Encoder, Parsed, SchemaError};

verus! {

/// `OMCTXRQ1`
pub const CONTEXT_READ_MAGIC: [u8; 8] = [79, 77, 67, 84, 88, 82, 81, 49];

/// `OMCTXSN1`
pub const CONTEXT_SNAPSHOT_MAGIC: [u8; 8] = [79, 77, 67, 84, 88, 83, 78, 49];

/// `OMCTXOP1`
pub const CONTEXT_OPENED_MAGIC: [u8; 8] = [79, 77, 67, 84, 88, 79, 80, 49];

pub const MAX_CONTEXT_FACTS: usize = 32;

pub const MAX_CONTEXT_VALUE_BYTES: usize = 256;

/// Asks for a set of facts.
#[derive(Clone, Debug, PartialEq, Eq)]
pub struct ContextReadRequest {
    pub facts: TextSet<String>,
}

/// [`ContextReadRequest`], field by field; the facts stand in order.
#[verifier::ext_equal]
pub struct ContextReadRequestView {
    pub facts: Seq<Seq<char>>,
}

impl View for ContextReadRequest {
    type V = ContextReadRequestView;

    open spec fn view(&self) -> ContextReadRequestView {
        ContextReadRequestView { facts: self.facts@ }
    }
}

/// Reads one fact of a request. None may occur twice.
pub open spec fn wanted_item() -> wire::ItemParser<Seq<char>> {
    |done: Seq<Seq<char>>, s: Seq<u8>|
        match wire::parse_text(s) {
            Err(e) => Err(e),
            Ok((fact, rest)) => if done.contains(fact) {
                Err(SchemaError::Malformed)
            } else {
                Ok((fact, rest))
            },
        }
}

pub open spec fn wanted_check() -> wire::ItemCheck<Seq<char>> {
    |done: Seq<Seq<char>>, fact: Seq<char>|
        if done.contains(fact) {
            Err(SchemaError::Malformed)
        } else if !wire::text_fits(fact) {
            Err(SchemaError::LimitExceeded)
        } else {
            Ok(())
        }
}

/// The texts of a list, put in order one after the other.
pub open spec fn in_order(list: Seq<Seq<char>>) -> Seq<Seq<char>>
    decreases list.len(),
{
    if list.len() == 0 {
        Seq::empty()
    } else {
        let before = in_order(list.drop_last());
        before.insert(text::rank(before, list.last()) as int, list.last())
    }
}

proof fn lemma_rank_of_last(keys: Seq<Seq<char>>, key: Seq<char>)
    requires
        forall|i: int| 0 <= i < keys.len() ==> text::text_less(#[trigger] keys[i], key),
    ensures
        text::rank(keys, key) == keys.len(),
    decreases keys.len(),
{
    if keys.len() > 0 {
        let tail = keys.drop_first();
        assert forall|i: int| 0 <= i < tail.len() implies text::text_less(
            #[trigger] tail[i],
            key,
        ) by {
            assert(tail[i] == keys[i + 1]);
        }
        lemma_rank_of_last(tail, key);
        assert(text::text_less(keys[0], key));
    }
}

/// A list in order stays as it is.
pub proof fn lemma_in_order_sorted(list: Seq<Seq<char>>)
    requires
        text::sorted(list),
    ensures
        in_order(list) == list,
    decreases list.len(),
{
    if list.len() > 0 {
        let before = list.drop_last();
        lemma_in_order_sorted(before);
        assert forall|i: int| 0 <= i < before.len() implies text::text_less(
            #[trigger] before[i],
            list.last(),
        ) by {
            assert(before[i] == list[i]);
        }
        lemma_rank_of_last(before, list.last());
        assert(in_order(list) =~= list);
    } else {
        assert(in_order(list) =~= list);
    }
}

/// No text of a list occurs twice.
pub open spec fn distinct(list: Seq<Seq<char>>) -> bool {
    forall|i: int, j: int| 0 <= i < j < list.len() ==> #[trigger] list[i] != #[trigger] list[j]
}

/// Putting texts in order keeps them all and sorts them.
pub proof fn lemma_in_order(list: Seq<Seq<char>>)
    requires
        distinct(list),
    ensures
        in_order(list).len() == list.len(),
        text::sorted(in_order(list)),
        forall|key: Seq<char>| #[trigger] in_order(list).contains(key) <==> list.contains(key),
    decreases list.len(),
{
    if list.len() > 0 {
        let before = list.drop_last();
        let last = list.last();
        lemma_in_order(before);
        let sorted = in_order(before);
        assert(!sorted.contains(last)) by {
            if before.contains(last) {
                let k = choose|k: int| 0 <= k < before.len() && before[k] == last;
                assert(list[k] == list[list.len() - 1]);
            }
        }
        text::lemma_rank(sorted, last);
        text::lemma_insert_sorted(sorted, last);
        assert forall|key: Seq<char>| #[trigger] in_order(list).contains(key) <==> list.contains(
            key,
        ) by {
            text::lemma_insert_contains(sorted, text::rank(sorted, last) as int, last, key);
            if list.contains(key) {
                let k = choose|k: int| 0 <= k < list.len() && list[k] == key;
                if k < before.len() {
                    assert(before[k] == key);
                }
            }
            if before.contains(key) {
                let k = choose|k: int| 0 <= k < before.len() && before[k] == key;
                assert(list[k] == key);
            }
            assert(list[list.len() - 1] == last);
        }
    }
}

impl ContextReadRequestView {
    /// The bytes of this payload, or why it has none.
    pub open spec fn payload(self) -> Result<Seq<u8>, SchemaError> {
        if self.facts.len() == 0 {
            Err(SchemaError::Malformed)
        } else if self.facts.len() > MAX_CONTEXT_FACTS {
            Err(SchemaError::LimitExceeded)
        } else {
            match wire::first_error(self.facts, 0, wire::text_check()) {
                Err(e) => Err(e),
                Ok(_) => wire::sealed(
                    CONTEXT_READ_MAGIC@ + wire::put_u16(
                        self.facts.len() as u16,
                        wire::put_list(self.facts, wire::text_put(), Seq::empty()),
                    ),
                ),
            }
        }
    }

    /// The facts that `bytes` name, as they stand there.
    pub open spec fn read_list(bytes: Seq<u8>) -> Result<Seq<Seq<char>>, SchemaError> {
        match wire::parse_open(bytes, CONTEXT_READ_MAGIC@) {
            Err(e) => Err(e),
            Ok(s0) => match wire::parse_u16(s0) {
                Err(e) => Err(e),
                Ok((count, s1)) => if count == 0 {
                    Err(SchemaError::Malformed)
                } else if count > MAX_CONTEXT_FACTS {
                    Err(SchemaError::LimitExceeded)
                } else {
                    match wire::parse_list(Seq::empty(), s1, count as nat, wanted_item()) {
                        Err(e) => Err(e),
                        Ok((list, s2)) => wire::parse_end(s2, list),
                    }
                },
            },
        }
    }

    /// What is read from `bytes`: the facts may stand in any order.
    pub open spec fn read(bytes: Seq<u8>) -> Result<Self, SchemaError> {
        match Self::read_list(bytes) {
            Err(e) => Err(e),
            Ok(list) => Ok(Self { facts: in_order(list) }),
        }
    }

    proof fn lemma_checks(self, from: nat)
        requires
            text::sorted(self.facts),
            from <= self.facts.len(),
            wire::first_error(self.facts, from, wire::text_check()) is Ok,
        ensures
            wire::first_error(self.facts, from, wanted_check()) is Ok,
        decreases self.facts.len() - from,
    {
        if from < self.facts.len() {
            self.lemma_checks(from + 1);
            let done = self.facts.subrange(0, from as int);
            let fact = self.facts[from as int];
            if done.contains(fact) {
                let k = choose|k: int| 0 <= k < done.len() && done[k] == fact;
                assert(text::text_less(self.facts[k], self.facts[from as int]));
                text::lemma_text_less_irreflexive(fact);
            }
        }
    }

    /// What was written is read back.
    pub proof fn round_trip(self)
        requires
            text::sorted(self.facts),
        ensures
            self.payload() matches Ok(bytes) ==> Self::read(bytes) == Ok::<Self, SchemaError>(self),
    {
        broadcast use wire::group_wire;

        if self.payload() is Ok {
            self.lemma_checks(0);
            wire::lemma_list_reads_back(
                self.facts,
                Seq::empty(),
                wanted_item(),
                wire::text_put(),
                wanted_check(),
            );
            lemma_in_order_sorted(self.facts);
        }
    }

    proof fn lemma_distinct(list: Seq<Seq<char>>, from: nat)
        requires
            from <= list.len(),
            distinct(list.subrange(0, from as int)),
            wire::first_error(list, from, wanted_check()) is Ok,
        ensures
            distinct(list),
        decreases list.len() - from,
    {
        if from < list.len() {
            let done = list.subrange(0, from as int);
            let next = list.subrange(0, from + 1int);
            assert forall|i: int, j: int| 0 <= i < j < next.len() implies #[trigger] next[i]
                != #[trigger] next[j] by {
                if j < from {
                    assert(done[i] == next[i] && done[j] == next[j]);
                } else {
                    assert(done[i] == next[i]);
                    assert(done.contains(done[i]));
                }
            }
            Self::lemma_distinct(list, from + 1);
        } else {
            assert(list.subrange(0, from as int) =~= list);
        }
    }

    /// What is read names each fact once, in order, and no others than the bytes
    /// do; the bytes name them one after the other.
    pub proof fn readable(bytes: Seq<u8>)
        ensures
            Self::read_list(bytes) matches Ok(list) ==> {
                &&& bytes == CONTEXT_READ_MAGIC@ + wire::put_u16(
                    list.len() as u16,
                    wire::put_list(list, wire::text_put(), Seq::empty()),
                )
                &&& distinct(list)
                &&& Self::read(bytes) matches Ok(value) && {
                    &&& text::sorted(value.facts)
                    &&& value.facts.len() == list.len()
                    &&& forall|fact: Seq<char>| #[trigger]
                        value.facts.contains(fact) <==> list.contains(fact)
                }
            },
    {
        broadcast use wire::group_wire;

        if Self::read_list(bytes) is Ok {
            let s0 = wire::parse_open(bytes, CONTEXT_READ_MAGIC@)->Ok_0;
            let (count, s1) = wire::parse_u16(s0)->Ok_0;
            wire::lemma_list_canonical(
                s1,
                count as nat,
                wanted_item(),
                wire::text_put(),
                wanted_check(),
            );
            let list = Self::read_list(bytes)->Ok_0;
            Self::lemma_distinct(list, 0);
            lemma_in_order(list);
        }
    }
}

impl ContextReadRequest {
    pub fn encode(&self) -> (payload: Result<Vec<u8>, SchemaError>)
        ensures
            wire::outcome(payload) == self@.payload(),
    {
        let count: usize = self.facts.len();
        if count == 0 {
            return Err(SchemaError::Malformed);
        }
        if count > MAX_CONTEXT_FACTS {
            return Err(SchemaError::LimitExceeded);
        }
        let mut encoder: Encoder = Encoder::new(&CONTEXT_READ_MAGIC);
        encoder.u16(count as u16);
        let ghost start = encoder.bytes@;
        let ghost all = self.facts@;
        let mut i: usize = 0;
        proof {
            assert forall|rest: Seq<u8>| #[trigger]
                (encoder.bytes@ + rest) == start + wire::put_list(
                    all.subrange(0, 0),
                    wire::text_put(),
                    rest,
                ) by {}
        }
        while i < count
            invariant
                i <= count,
                0 < count <= MAX_CONTEXT_FACTS,
                count == all.len(),
                all == self.facts@,
                forall|rest: Seq<u8>|
                    #[trigger] (encoder.bytes@ + rest) == start + wire::put_list(
                        all.subrange(0, i as int),
                        wire::text_put(),
                        rest,
                    ),
                wire::first_error(all, 0, wire::text_check()) == wire::first_error(
                    all,
                    i as nat,
                    wire::text_check(),
                ),
            decreases count - i,
        {
            encoder.string(self.facts.get(i).as_str())?;
            proof {
                let next = all.subrange(0, i + 1);
                assert(next =~= all.subrange(0, i as int).push(all[i as int]));
                assert forall|rest: Seq<u8>| #[trigger]
                    (encoder.bytes@ + rest) == start + wire::put_list(
                        next,
                        wire::text_put(),
                        rest,
                    ) by {
                    wire::lemma_put_list_push(
                        all.subrange(0, i as int),
                        all[i as int],
                        wire::text_put(),
                        rest,
                    );
                }
            }
            i += 1;
        }
        proof {
            assert(all.subrange(0, i as int) =~= all);
        }
        encoder.finish()
    }

    pub fn decode(bytes: &[u8]) -> (value: Result<Self, SchemaError>)
        ensures
            wire::outcome(value) == ContextReadRequestView::read(bytes@),
            value matches Ok(request) ==> request.facts.wf(),
    {
        let mut decoder: Decoder<'_> = Decoder::new(bytes, &CONTEXT_READ_MAGIC)?;
        let count: u16 = decoder.u16()?;
        if count == 0 {
            return Err(SchemaError::Malformed);
        }
        if count as usize > MAX_CONTEXT_FACTS {
            return Err(SchemaError::LimitExceeded);
        }
        let mut facts: TextSet<String> = TextSet::new();
        let ghost start = decoder.remaining@;
        let ghost mut list: Seq<Seq<char>> = Seq::empty();
        let mut i: u16 = 0;
        while i < count
            invariant
                i <= count,
                0 < count <= MAX_CONTEXT_FACTS,
                facts.wf(),
                facts@ == in_order(list),
                distinct(list),
                ContextReadRequestView::read_list(bytes@) == (match wire::parse_list(
                    list,
                    decoder.remaining@,
                    (count - i) as nat,
                    wanted_item(),
                ) {
                    Err(e) => Err(e),
                    Ok((l, s)) => wire::parse_end(s, l),
                }),
            decreases count - i,
        {
            let fact: String = decoder.string()?;
            proof {
                lemma_in_order(list);
            }
            let ghost key = fact@;
            if !facts.insert(fact) {
                proof {
                    assert(in_order(list).contains(key));
                }
                return Err(SchemaError::Malformed);
            }
            proof {
                let next = list.push(key);
                assert(next.drop_last() =~= list);
                assert(!in_order(list).contains(key));
                assert(!list.contains(key));
                assert forall|a: int, b: int| 0 <= a < b < next.len() implies #[trigger] next[a]
                    != #[trigger] next[b] by {
                    assert(list.contains(list[a]));
                }
                list = next;
            }
            i += 1;
        }
        decoder.finish()?;
        Ok(ContextReadRequest { facts })
    }
}

/// The value of a fact.
#[derive(Clone, Debug, PartialEq, Eq)]
pub enum ContextFactValue {
    Text(String),
    Boolean(bool),
}

/// [`ContextFactValue`], field by field.
#[verifier::ext_equal]
pub enum ContextFactValueView {
    Text(Seq<char>),
    Boolean(bool),
}

impl View for ContextFactValue {
    type V = ContextFactValueView;

    open spec fn view(&self) -> ContextFactValueView {
        match *self {
            ContextFactValue::Text(text) => ContextFactValueView::Text(text@),
            ContextFactValue::Boolean(value) => ContextFactValueView::Boolean(value),
        }
    }
}

/// A fact of the desktop context.
#[derive(Clone, Debug, PartialEq, Eq)]
pub struct ContextFact {
    pub key: String,
    pub value: ContextFactValue,
}

/// [`ContextFact`], field by field.
#[verifier::ext_equal]
pub struct ContextFactView {
    pub key: Seq<char>,
    pub value: ContextFactValueView,
}

impl View for ContextFact {
    type V = ContextFactView;

    open spec fn view(&self) -> ContextFactView {
        ContextFactView { key: self.key@, value: self.value@ }
    }
}

/// No fact before has that key.
pub open spec fn key_is_new(done: Seq<ContextFactView>, key: Seq<char>) -> bool {
    forall|i: int| 0 <= i < done.len() ==> (#[trigger] done[i]).key != key
}

impl ContextFactValueView {
    /// Reads a value.
    pub open spec fn parse(s: Seq<u8>) -> Parsed<Self> {
        match wire::parse_u8(s) {
            Err(e) => Err(e),
            Ok((tag, s1)) => if tag == 0 {
                match wire::parse_text(s1) {
                    Err(e) => Err(e),
                    Ok((text, rest)) => if wire::text_bytes(text) > MAX_CONTEXT_VALUE_BYTES {
                        Err(SchemaError::LimitExceeded)
                    } else {
                        Ok((ContextFactValueView::Text(text), rest))
                    },
                }
            } else if tag == 1 {
                match wire::parse_bool(s1) {
                    Err(e) => Err(e),
                    Ok((value, rest)) => Ok((ContextFactValueView::Boolean(value), rest)),
                }
            } else {
                Err(SchemaError::Malformed)
            },
        }
    }

    /// The bytes of this value.
    pub open spec fn put(self, rest: Seq<u8>) -> Seq<u8> {
        match self {
            ContextFactValueView::Text(text) => wire::put_u8(0, wire::put_text(text, rest)),
            ContextFactValueView::Boolean(value) => wire::put_u8(1, wire::put_bool(value, rest)),
        }
    }

    /// A text may not be too long.
    pub open spec fn fits(self) -> bool {
        self matches ContextFactValueView::Text(text) ==> wire::text_bytes(text)
            <= MAX_CONTEXT_VALUE_BYTES
    }
}

/// Reads one fact. Two facts may not have the same key.
pub open spec fn fact_item() -> wire::ItemParser<ContextFactView> {
    |done: Seq<ContextFactView>, s: Seq<u8>|
        match wire::parse_text(s) {
            Err(e) => Err(e),
            Ok((key, s1)) => if !key_is_new(done, key) {
                Err(SchemaError::Malformed)
            } else {
                match ContextFactValueView::parse(s1) {
                    Err(e) => Err(e),
                    Ok((value, rest)) => Ok((ContextFactView { key, value }, rest)),
                }
            },
        }
}

pub open spec fn fact_put() -> wire::ItemPut<ContextFactView> {
    |fact: ContextFactView, rest: Seq<u8>| wire::put_text(fact.key, fact.value.put(rest))
}

pub open spec fn fact_check() -> wire::ItemCheck<ContextFactView> {
    |done: Seq<ContextFactView>, fact: ContextFactView|
        if !key_is_new(done, fact.key) {
            Err(SchemaError::Malformed)
        } else if !wire::text_fits(fact.key) || !fact.value.fits() {
            Err(SchemaError::LimitExceeded)
        } else {
            Ok(())
        }
}

proof fn lemma_fact_item()
    ensures
        wire::item_reads_back(fact_item(), fact_put(), fact_check()),
        wire::item_canonical(fact_item(), fact_put(), fact_check()),
{
    broadcast use wire::group_wire;

}

fn has_key(values: &Vec<ContextFact>, count: usize, key: &str) -> (found: bool)
    requires
        count <= values@.len(),
    ensures
        found == !key_is_new(fact_views(values@).subrange(0, count as int), key@),
{
    let mut i: usize = 0;
    while i < count
        invariant
            i <= count <= values@.len(),
            forall|j: int| 0 <= j < i ==> values@[j].key@ != key@,
        decreases count - i,
    {
        if text::same(values[i].key.as_str(), key) {
            proof {
                let seen = fact_views(values@).subrange(0, count as int);
                assert(seen[i as int].key == key@);
            }
            return true;
        }
        i += 1;
    }
    false
}

fn write_fact(encoder: &mut Encoder, values: &Vec<ContextFact>, i: usize) -> (done: Result<
    (),
    SchemaError,
>)
    requires
        i < values@.len(),
    ensures
        done == fact_check()(
            fact_views(values@).subrange(0, i as int),
            fact_views(values@)[i as int],
        ),
        done is Ok ==> forall|rest: Seq<u8>|
            #[trigger] (final(encoder).bytes@ + rest) == old(encoder).bytes@ + fact_put()(
                fact_views(values@)[i as int],
                rest,
            ),
{
    if has_key(values, i, values[i].key.as_str()) {
        return Err(SchemaError::Malformed);
    }
    encoder.string(values[i].key.as_str())?;
    match &values[i].value {
        ContextFactValue::Text(text) => {
            if text.as_str().as_bytes().len() > MAX_CONTEXT_VALUE_BYTES {
                return Err(SchemaError::LimitExceeded);
            }
            encoder.byte(0);
            encoder.string(text.as_str())?;
        },
        ContextFactValue::Boolean(value) => {
            encoder.byte(1);
            encoder.flag(*value);
        },
    }
    Ok(())
}

fn read_fact(decoder: &mut Decoder<'_>, values: &Vec<ContextFact>) -> (value: Result<
    ContextFact,
    SchemaError,
>)
    ensures
        wire::reads_view(
            value,
            final(decoder).remaining@,
            fact_item()(fact_views(values@), old(decoder).remaining@),
        ),
{
    let key: String = decoder.string()?;
    proof {
        assert(fact_views(values@).subrange(0, values@.len() as int) =~= fact_views(values@));
    }
    if has_key(values, values.len(), key.as_str()) {
        return Err(SchemaError::Malformed);
    }
    let tag: u8 = decoder.byte()?;
    let value: ContextFactValue = match tag {
        0 => {
            let text: String = decoder.string()?;
            if text.as_str().as_bytes().len() > MAX_CONTEXT_VALUE_BYTES {
                return Err(SchemaError::LimitExceeded);
            }
            ContextFactValue::Text(text)
        },
        1 => ContextFactValue::Boolean(decoder.flag()?),
        _ => {
            return Err(SchemaError::Malformed);
        },
    };
    Ok(ContextFact { key, value })
}

/// The facts of a snapshot, seen one by one.
pub open spec fn fact_views(values: Seq<ContextFact>) -> Seq<ContextFactView> {
    Seq::new(values.len(), |i: int| values[i]@)
}

fn write_facts(encoder: &mut Encoder, values: &Vec<ContextFact>) -> (done: Result<(), SchemaError>)
    ensures
        done == wire::first_error(fact_views(values@), 0, fact_check()),
        done is Ok ==> forall|rest: Seq<u8>|
            #[trigger] (final(encoder).bytes@ + rest) == old(encoder).bytes@ + wire::put_list(
                fact_views(values@),
                fact_put(),
                rest,
            ),
{
    let mut i: usize = 0;
    let ghost start = encoder.bytes@;
    let ghost all = fact_views(values@);
    proof {
        assert forall|rest: Seq<u8>| #[trigger]
            (encoder.bytes@ + rest) == start + wire::put_list(
                all.subrange(0, 0),
                fact_put(),
                rest,
            ) by {}
    }
    while i < values.len()
        invariant
            i <= values@.len(),
            all == fact_views(values@),
            forall|rest: Seq<u8>|
                #[trigger] (encoder.bytes@ + rest) == start + wire::put_list(
                    all.subrange(0, i as int),
                    fact_put(),
                    rest,
                ),
            wire::first_error(all, 0, fact_check()) == wire::first_error(
                all,
                i as nat,
                fact_check(),
            ),
        decreases values@.len() - i,
    {
        write_fact(encoder, values, i)?;
        proof {
            let next = all.subrange(0, i + 1);
            assert(next =~= all.subrange(0, i as int).push(all[i as int]));
            assert forall|rest: Seq<u8>| #[trigger]
                (encoder.bytes@ + rest) == start + wire::put_list(next, fact_put(), rest) by {
                wire::lemma_put_list_push(
                    all.subrange(0, i as int),
                    all[i as int],
                    fact_put(),
                    rest,
                );
            }
        }
        i += 1;
    }
    proof {
        assert(all.subrange(0, i as int) =~= all);
    }
    Ok(())
}

fn read_facts(decoder: &mut Decoder<'_>, count: usize) -> (value: Result<
    Vec<ContextFact>,
    SchemaError,
>)
    ensures
        match wire::parse_list(Seq::empty(), old(decoder).remaining@, count as nat, fact_item()) {
            Ok((items, rest)) => (value matches Ok(v) && fact_views(v@) == items)
                && final(decoder).remaining@ == rest,
            Err(e) => value == Err::<Vec<ContextFact>, SchemaError>(e),
        },
{
    let mut values: Vec<ContextFact> = Vec::new();
    let mut i: usize = 0;
    let ghost start = decoder.remaining@;
    proof {
        assert(fact_views(values@) =~= Seq::<ContextFactView>::empty());
    }
    while i < count
        invariant
            i <= count,
            start == old(decoder).remaining@,
            wire::parse_list(Seq::empty(), start, count as nat, fact_item()) == wire::parse_list(
                fact_views(values@),
                decoder.remaining@,
                (count - i) as nat,
                fact_item(),
            ),
        decreases count - i,
    {
        let value: ContextFact = read_fact(decoder, &values)?;
        let ghost before = values@;
        values.push(value);
        proof {
            assert(fact_views(values@) =~= fact_views(before).push(value@));
        }
        i += 1;
    }
    Ok(values)
}

/// The facts that hold at one time.
#[derive(Clone, Debug, PartialEq, Eq)]
pub struct ContextSnapshot {
    pub generation: u64,
    pub facts: Vec<ContextFact>,
}

/// [`ContextSnapshot`], field by field.
#[verifier::ext_equal]
pub struct ContextSnapshotView {
    pub generation: u64,
    pub facts: Seq<ContextFactView>,
}

impl View for ContextSnapshot {
    type V = ContextSnapshotView;

    open spec fn view(&self) -> ContextSnapshotView {
        ContextSnapshotView { generation: self.generation, facts: fact_views(self.facts@) }
    }
}

impl ContextSnapshotView {
    /// Why a snapshot cannot be sent.
    pub open spec fn check(self) -> Result<(), SchemaError> {
        if self.generation == 0 {
            Err(SchemaError::Malformed)
        } else if self.facts.len() > MAX_CONTEXT_FACTS {
            Err(SchemaError::LimitExceeded)
        } else {
            wire::first_error(self.facts, 0, fact_check())
        }
    }

    /// The bytes of a snapshot inside a payload.
    pub open spec fn put(self) -> Seq<u8> {
        wire::put_u64(
            self.generation,
            wire::put_u16(
                self.facts.len() as u16,
                wire::put_list(self.facts, fact_put(), Seq::empty()),
            ),
        )
    }

    /// Reads a snapshot that ends a payload.
    pub open spec fn parse_last(s: Seq<u8>) -> Result<Self, SchemaError> {
        match wire::parse_u64(s) {
            Err(e) => Err(e),
            Ok((generation, s1)) => if generation == 0 {
                Err(SchemaError::Malformed)
            } else {
                match wire::parse_u16(s1) {
                    Err(e) => Err(e),
                    Ok((count, s2)) => if count > MAX_CONTEXT_FACTS {
                        Err(SchemaError::LimitExceeded)
                    } else {
                        match wire::parse_list(Seq::empty(), s2, count as nat, fact_item()) {
                            Err(e) => Err(e),
                            Ok((facts, s3)) => wire::parse_end(s3, Self { generation, facts }),
                        }
                    },
                }
            },
        }
    }

    proof fn lemma_parse_put(self)
        requires
            self.check() is Ok,
        ensures
            Self::parse_last(self.put()) == Ok::<Self, SchemaError>(self),
    {
        broadcast use wire::group_wire;

        lemma_fact_item();
        wire::lemma_list_reads_back(
            self.facts,
            Seq::empty(),
            fact_item(),
            fact_put(),
            fact_check(),
        );
    }

    proof fn lemma_put_parse(s: Seq<u8>)
        ensures
            Self::parse_last(s) matches Ok(value) ==> s == value.put() && value.check() is Ok,
    {
        broadcast use wire::group_wire;

        if Self::parse_last(s) is Ok {
            let s1 = wire::parse_u64(s)->Ok_0.1;
            let (count, s2) = wire::parse_u16(s1)->Ok_0;
            lemma_fact_item();
            wire::lemma_list_canonical(s2, count as nat, fact_item(), fact_put(), fact_check());
        }
    }

    /// The bytes of this payload, or why it has none.
    pub open spec fn payload(self) -> Result<Seq<u8>, SchemaError> {
        match self.check() {
            Err(e) => Err(e),
            Ok(_) => wire::sealed(CONTEXT_SNAPSHOT_MAGIC@ + self.put()),
        }
    }

    /// What is read from `bytes`.
    pub open spec fn read(bytes: Seq<u8>) -> Result<Self, SchemaError> {
        match wire::parse_open(bytes, CONTEXT_SNAPSHOT_MAGIC@) {
            Err(e) => Err(e),
            Ok(s0) => Self::parse_last(s0),
        }
    }

    /// What was written is read back.
    pub proof fn round_trip(self)
        ensures
            self.payload() matches Ok(bytes) ==> Self::read(bytes) == Ok::<Self, SchemaError>(self),
    {
        broadcast use wire::group_wire;

        if self.check() is Ok {
            self.lemma_parse_put();
        }
    }

    /// What is read has no other payload than the bytes it was read from.
    pub proof fn canonical(bytes: Seq<u8>)
        ensures
            Self::read(bytes) matches Ok(value) ==> value.payload() == Ok::<Seq<u8>, SchemaError>(
                bytes,
            ),
    {
        broadcast use wire::group_wire;

        if wire::parse_open(bytes, CONTEXT_SNAPSHOT_MAGIC@) is Ok {
            Self::lemma_put_parse(wire::parse_open(bytes, CONTEXT_SNAPSHOT_MAGIC@)->Ok_0);
        }
    }
}

/// Writes a snapshot, behind the number of a subscription where there is one.
fn encode_context_snapshot(
    magic: &[u8; 8],
    resource_id: Option<u64>,
    snapshot: &ContextSnapshot,
) -> (payload: Result<Vec<u8>, SchemaError>)
    ensures
        wire::outcome(payload) == (match snapshot@.check() {
            Err(e) => Err(e),
            Ok(_) => wire::sealed(
                magic@ + (match resource_id {
                    None => snapshot@.put(),
                    Some(id) => wire::put_u64(id, snapshot@.put()),
                }),
            ),
        }),
{
    if snapshot.generation == 0 {
        return Err(SchemaError::Malformed);
    }
    if snapshot.facts.len() > MAX_CONTEXT_FACTS {
        return Err(SchemaError::LimitExceeded);
    }
    let mut encoder: Encoder = Encoder::new(magic);
    match resource_id {
        None => {},
        Some(id) => {
            encoder.u64(id);
        },
    }
    encoder.u64(snapshot.generation);
    encoder.u16(snapshot.facts.len() as u16);
    write_facts(&mut encoder, &snapshot.facts)?;
    encoder.finish()
}

/// Reads a snapshot that ends a payload.
fn decode_context_snapshot(mut decoder: Decoder<'_>) -> (value: Result<
    ContextSnapshot,
    SchemaError,
>)
    ensures
        wire::outcome(value) == ContextSnapshotView::parse_last(decoder.remaining@),
{
    let generation: u64 = decoder.u64()?;
    if generation == 0 {
        return Err(SchemaError::Malformed);
    }
    let count: u16 = decoder.u16()?;
    if count as usize > MAX_CONTEXT_FACTS {
        return Err(SchemaError::LimitExceeded);
    }
    let facts: Vec<ContextFact> = read_facts(&mut decoder, count as usize)?;
    decoder.finish()?;
    Ok(ContextSnapshot { generation, facts })
}

impl ContextSnapshot {
    pub fn encode(&self) -> (payload: Result<Vec<u8>, SchemaError>)
        ensures
            wire::outcome(payload) == self@.payload(),
    {
        encode_context_snapshot(&CONTEXT_SNAPSHOT_MAGIC, None, self)
    }

    pub fn decode(bytes: &[u8]) -> (value: Result<Self, SchemaError>)
        ensures
            wire::outcome(value) == ContextSnapshotView::read(bytes@),
    {
        let decoder: Decoder<'_> = Decoder::new(bytes, &CONTEXT_SNAPSHOT_MAGIC)?;
        decode_context_snapshot(decoder)
    }
}

/// The subscription that a request was given, and the facts at its start.
#[derive(Clone, Debug, PartialEq, Eq)]
pub struct ContextSubscriptionOpened {
    pub resource_id: u64,
    pub snapshot: ContextSnapshot,
}

/// [`ContextSubscriptionOpened`], field by field.
#[verifier::ext_equal]
pub struct ContextSubscriptionOpenedView {
    pub resource_id: u64,
    pub snapshot: ContextSnapshotView,
}

impl View for ContextSubscriptionOpened {
    type V = ContextSubscriptionOpenedView;

    open spec fn view(&self) -> ContextSubscriptionOpenedView {
        ContextSubscriptionOpenedView { resource_id: self.resource_id, snapshot: self.snapshot@ }
    }
}

impl ContextSubscriptionOpenedView {
    /// The bytes of this payload, or why it has none.
    pub open spec fn payload(self) -> Result<Seq<u8>, SchemaError> {
        if self.resource_id == 0 {
            Err(SchemaError::Malformed)
        } else {
            match self.snapshot.check() {
                Err(e) => Err(e),
                Ok(_) => wire::sealed(
                    CONTEXT_OPENED_MAGIC@ + wire::put_u64(self.resource_id, self.snapshot.put()),
                ),
            }
        }
    }

    /// What is read from `bytes`.
    pub open spec fn read(bytes: Seq<u8>) -> Result<Self, SchemaError> {
        match wire::parse_open(bytes, CONTEXT_OPENED_MAGIC@) {
            Err(e) => Err(e),
            Ok(s0) => match wire::parse_u64(s0) {
                Err(e) => Err(e),
                Ok((resource_id, s1)) => match ContextSnapshotView::parse_last(s1) {
                    Err(e) => Err(e),
                    Ok(snapshot) => if resource_id == 0 {
                        Err(SchemaError::Malformed)
                    } else {
                        Ok(Self { resource_id, snapshot })
                    },
                },
            },
        }
    }

    /// What was written is read back.
    pub proof fn round_trip(self)
        ensures
            self.payload() matches Ok(bytes) ==> Self::read(bytes) == Ok::<Self, SchemaError>(self),
    {
        broadcast use wire::group_wire;

        if self.snapshot.check() is Ok {
            self.snapshot.lemma_parse_put();
        }
    }

    /// What is read has no other payload than the bytes it was read from.
    pub proof fn canonical(bytes: Seq<u8>)
        ensures
            Self::read(bytes) matches Ok(value) ==> value.payload() == Ok::<Seq<u8>, SchemaError>(
                bytes,
            ),
    {
        broadcast use wire::group_wire;

        if Self::read(bytes) is Ok {
            let s0 = wire::parse_open(bytes, CONTEXT_OPENED_MAGIC@)->Ok_0;
            ContextSnapshotView::lemma_put_parse(wire::parse_u64(s0)->Ok_0.1);
        }
    }
}

impl ContextSubscriptionOpened {
    pub fn encode(&self) -> (payload: Result<Vec<u8>, SchemaError>)
        ensures
            wire::outcome(payload) == self@.payload(),
    {
        if self.resource_id == 0 {
            return Err(SchemaError::Malformed);
        }
        encode_context_snapshot(&CONTEXT_OPENED_MAGIC, Some(self.resource_id), &self.snapshot)
    }

    pub fn decode(bytes: &[u8]) -> (value: Result<Self, SchemaError>)
        ensures
            wire::outcome(value) == ContextSubscriptionOpenedView::read(bytes@),
    {
        let mut decoder: Decoder<'_> = Decoder::new(bytes, &CONTEXT_OPENED_MAGIC)?;
        let resource_id: u64 = decoder.u64()?;
        let snapshot: ContextSnapshot = decode_context_snapshot(decoder)?;
        if resource_id == 0 {
            return Err(SchemaError::Malformed);
        }
        Ok(ContextSubscriptionOpened { resource_id, snapshot })
    }
}

} // verus!
