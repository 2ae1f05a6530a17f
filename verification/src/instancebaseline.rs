//! The data that an entity of a class starts from, by class.

use crate::stringtables::{StringTable, StringTableItem};
use core::num::ParseIntError;
use vstd::prelude::*;
use vstd::slice::slice_to_vec;

verus! {

/// The name of the string table whose entries are the baselines.
pub const INSTANCE_BASELINE_TABLE_NAME: &'static str = "instancebaseline";

/// The error of parsing an integer, carried as it is.
#[verifier::external_type_specification]
#[verifier::external_body]
pub struct ExParseIntError(ParseIntError);

/// Whether `s` is one or more decimal digits.
pub open spec fn is_digits(s: Seq<char>) -> bool {
    s.len() > 0 && forall|i: int| 0 <= i < s.len() ==> '0' <= #[trigger] s[i] <= '9'
}

/// The number that decimal digits stand for.
pub open spec fn digits_value(s: Seq<char>) -> nat
    decreases s.len(),
{
    if s.len() == 0 {
        0
    } else {
        10 * digits_value(s.drop_last()) + (s.last() as int - '0' as int) as nat
    }
}

/// The `i32` that `s` stands for: decimal digits after an optional sign, in range.
pub open spec fn decimal_i32(s: Seq<char>) -> Option<int> {
    let signed = s.len() > 0 && (s[0] == '-' || s[0] == '+');
    let digits = if signed {
        s.skip(1)
    } else {
        s
    };
    let value = if signed && s[0] == '-' {
        -digits_value(digits)
    } else {
        digits_value(digits) as int
    };
    if is_digits(digits) && i32::MIN <= value <= i32::MAX {
        Some(value)
    } else {
        None
    }
}

/// The error that `str::parse::<i32>` gives for `s`, which is not a number.
pub uninterp spec fn parse_i32_error(s: Seq<char>) -> ParseIntError;

/// Calls `core::str::from_utf8`. Claims that it succeeds exactly on valid UTF-8, and then gives the
/// characters that the bytes encode.
#[verifier::external_body]
fn utf8_str(bytes: &[u8]) -> (r: Option<&str>)
    ensures
        match r {
            Some(s) => vstd::utf8::valid_utf8(bytes@) && s@ == vstd::utf8::decode_utf8(bytes@),
            None => !vstd::utf8::valid_utf8(bytes@),
        },
{
    core::str::from_utf8(bytes).ok()
}

/// Calls `str::parse::<i32>`. Claims that it gives the number that the text stands for in decimal,
/// with an optional sign, and fails where there is none in range; and that the error depends on the
/// text alone.
#[verifier::external_body]
fn parse_i32(s: &str) -> (r: Result<i32, ParseIntError>)
    ensures
        match decimal_i32(s@) {
            Some(value) => r is Ok && r->Ok_0 == value,
            None => r == Err::<i32, ParseIntError>(parse_i32_error(s@)),
        },
{
    s.parse::<i32>()
}

/// Why the baselines could not be taken over from a string table.
#[derive(Debug)]
pub enum UpdateBaselineError {
    /// An entry's name is not a number.
    ParseIntError(ParseIntError),
    /// An entry's name is not the number of a class.
    UnknownClass { class_id: i32 },
}

/// The class that an entry is for, as its name says. An entry without a name, or with one that is not
/// text, is for none.
pub open spec fn class_of(item: crate::stringtables::ItemModel) -> Option<
    Result<i32, ParseIntError>,
> {
    match item.string {
        Some(bytes) => if vstd::utf8::valid_utf8(bytes) {
            let name = vstd::utf8::decode_utf8(bytes);
            match decimal_i32(name) {
                Some(class_id) => Some(Ok(class_id as i32)),
                None => Some(Err(parse_i32_error(name))),
            }
        } else {
            None
        },
        None => None,
    }
}

/// The baselines with room for `classes` classes.
pub open spec fn resized(data: Seq<Option<Seq<u8>>>, classes: nat) -> Seq<Option<Seq<u8>>> {
    if data.len() < classes {
        data + Seq::new((classes - data.len()) as nat, |i: int| None::<Seq<u8>>)
    } else {
        data
    }
}

/// The baselines after each entry in turn has set the one of its class, up to the first entry whose
/// name is no class.
pub open spec fn applied(
    data: Seq<Option<Seq<u8>>>,
    items: Seq<crate::stringtables::ItemModel>,
) -> (Result<(), UpdateBaselineError>, Seq<Option<Seq<u8>>>)
    decreases items.len(),
{
    if items.len() == 0 {
        (Ok(()), data)
    } else {
        match class_of(items[0]) {
            None => applied(data, items.skip(1)),
            Some(Err(err)) => (Err(UpdateBaselineError::ParseIntError(err)), data),
            Some(Ok(class_id)) => if 0 <= class_id < data.len() {
                applied(data.update(class_id as int, items[0].user_data), items.skip(1))
            } else {
                (Err(UpdateBaselineError::UnknownClass { class_id }), data)
            },
        }
    }
}

/// The baseline that `items` give the class `class_id`: the last entry for it decides, and where there
/// is none, `before` stays.
pub open spec fn baseline_from(
    items: Seq<crate::stringtables::ItemModel>,
    class_id: int,
    before: Option<Seq<u8>>,
) -> Option<Seq<u8>>
    decreases items.len(),
{
    if items.len() == 0 {
        before
    } else if class_of(items.last()) matches Some(Ok(id)) && id == class_id {
        items.last().user_data
    } else {
        baseline_from(items.drop_last(), class_id, before)
    }
}

/// The baselines of all classes.
#[derive(Debug)]
pub struct InstanceBaseline {
    data: Vec<Option<Vec<u8>>>,
}

impl InstanceBaseline {
    /// The baseline of each class, where it has one.
    pub closed spec fn view(self) -> Seq<Option<Seq<u8>>> {
        Seq::new(self.data@.len(), |i: int| crate::stringtables::bytes_of(self.data@[i]))
    }

    /// No baselines.
    pub fn new() -> (r: Self)
        ensures
            r@ == Seq::<Option<Seq<u8>>>::empty(),
    {
        let r = InstanceBaseline { data: Vec::new() };
        assert(r@ =~= Seq::<Option<Seq<u8>>>::empty());
        r
    }

    /// Takes the baselines over from the entries of `string_table`, each of which is named after the
    /// number of its class. There are `classes` classes.
    pub fn update(&mut self, string_table: &StringTable, classes: usize) -> (r: Result<
        (),
        UpdateBaselineError,
    >)
        ensures
            (r, final(self)@) == applied(
                resized(old(self)@, classes as nat),
                string_table@.items,
            ),
    {
        let ghost before = self@;
        while self.data.len() < classes
            invariant
                self@ == resized(before, self@.len()),
                before.len() <= self@.len(),
                before.len() <= classes ==> self@.len() <= classes,
                before.len() > classes ==> self@ == before,
            decreases classes - self@.len(),
        {
            let ghost old_view = self@;
            self.data.push(None);
            assert(self@ =~= old_view.push(None));
            assert(self@ =~= resized(before, self@.len()));
        }
        let ghost items = string_table@.items;
        let ghost start = self@;
        assert(start =~= resized(before, classes as nat));
        assert(items.skip(0) =~= items);
        let mut i: usize = 0;
        while i < string_table.items.len()
            invariant
                i <= items.len(),
                items == string_table@.items,
                start == resized(old(self)@, classes as nat),
                applied(start, items) == applied(self@, items.skip(i as int)),
            decreases items.len() - i,
        {
            let item: &StringTableItem = &string_table.items[i];
            proof {
                assert(items.skip(i as int)[0] == item@);
                assert(items.skip(i as int).skip(1) =~= items.skip(i + 1));
            }
            if let Some(data) = &item.string {
                if let Some(string) = utf8_str(data.as_slice()) {
                    let class_id: i32 = match parse_i32(string) {
                        Ok(class_id) => class_id,
                        Err(err) => {
                            return Err(UpdateBaselineError::ParseIntError(err));
                        },
                    };
                    if class_id < 0 || class_id as u64 >= self.data.len() as u64 {
                        return Err(UpdateBaselineError::UnknownClass { class_id });
                    }
                    let ghost old_view = self@;
                    let user_data: Option<Vec<u8>> = match &item.user_data {
                        Some(bytes) => Some(slice_to_vec(bytes.as_slice())),
                        None => None,
                    };
                    self.data[class_id as usize] = user_data;
                    assert(self@ =~= old_view.update(class_id as int, item@.user_data));
                }
            }
            i = i + 1;
        }
        Ok(())
    }

    /// The baseline of the class `class_id`, or nothing where none is known for it, which decodes to
    /// an entity with every field at its default.
    pub fn by_id(&self, class_id: i32) -> (r: &[u8])
        ensures
            r@ == (if 0 <= class_id < self@.len() && self@[class_id as int] is Some {
                self@[class_id as int]->Some_0
            } else {
                Seq::<u8>::empty()
            }),
    {
        if class_id >= 0 && (class_id as u64) < self.data.len() as u64 {
            if let Some(bytes) = &self.data[class_id as usize] {
                return bytes.as_slice();
            }
        }
        let nothing: &[u8] = &[];
        assert(nothing@ =~= Seq::<u8>::empty());
        nothing
    }

    /// Forgets all baselines.
    pub fn clear(&mut self)
        ensures
            final(self)@ == Seq::<Option<Seq<u8>>>::empty(),
    {
        self.data.clear();
        assert(self@ =~= Seq::<Option<Seq<u8>>>::empty());
    }
}

/// Where every entry was taken over, each class has the baseline of the last entry for it, or the one
/// that it had.
pub proof fn lemma_last_entry_decides(
    data: Seq<Option<Seq<u8>>>,
    items: Seq<crate::stringtables::ItemModel>,
    class_id: int,
)
    requires
        applied(data, items).0 is Ok,
        0 <= class_id < data.len(),
    ensures
        applied(data, items).1.len() == data.len(),
        applied(data, items).1[class_id] == baseline_from(items, class_id, data[class_id]),
    decreases items.len(),
{
    if items.len() > 0 {
        let next = match class_of(items[0]) {
            Some(Ok(id)) => data.update(id as int, items[0].user_data),
            _ => data,
        };
        lemma_last_entry_decides(next, items.skip(1), class_id);
        lemma_baseline_from_first(items, class_id, data[class_id]);
        let first = seq![items[0]];
        assert(first.drop_last() =~= Seq::empty());
        assert(first.last() == items[0]);
        assert(baseline_from(first.drop_last(), class_id, data[class_id]) == data[class_id]);
    }
}

/// The first entry counts only where no later one does.
proof fn lemma_baseline_from_first(
    items: Seq<crate::stringtables::ItemModel>,
    class_id: int,
    before: Option<Seq<u8>>,
)
    requires
        items.len() > 0,
    ensures
        baseline_from(items, class_id, before) == baseline_from(
            items.skip(1),
            class_id,
            baseline_from(seq![items[0]], class_id, before),
        ),
    decreases items.len(),
{
    let first = baseline_from(seq![items[0]], class_id, before);
    if items.len() == 1 {
        assert(items =~= seq![items[0]]);
    } else {
        assert(items.skip(1).last() == items.last());
        assert(items.skip(1).drop_last() =~= items.drop_last().skip(1));
        lemma_baseline_from_first(items.drop_last(), class_id, before);
    }
}

/// Room for more classes leaves the baselines that there are as they are.
pub proof fn lemma_resized_keeps(data: Seq<Option<Seq<u8>>>, classes: nat, class_id: int)
    requires
        0 <= class_id < data.len(),
    ensures
        resized(data, classes)[class_id] == data[class_id],
{
}

/// A decimal digit.
pub open spec fn digit(n: nat) -> char {
    if n == 0 {
        '0'
    } else if n == 1 {
        '1'
    } else if n == 2 {
        '2'
    } else if n == 3 {
        '3'
    } else if n == 4 {
        '4'
    } else if n == 5 {
        '5'
    } else if n == 6 {
        '6'
    } else if n == 7 {
        '7'
    } else if n == 8 {
        '8'
    } else {
        '9'
    }
}

/// A number as it is written in decimal.
pub open spec fn decimal(n: nat) -> Seq<char>
    decreases n,
{
    if n < 10 {
        seq![digit(n)]
    } else {
        decimal(n / 10).push(digit(n % 10))
    }
}

proof fn lemma_decimal(n: nat)
    ensures
        is_digits(decimal(n)),
        digits_value(decimal(n)) == n,
    decreases n,
{
    if n < 10 {
        assert(decimal(n).drop_last() =~= Seq::<char>::empty());
        assert(digits_value(Seq::<char>::empty()) == 0);
    } else {
        lemma_decimal(n / 10);
        assert(decimal(n).drop_last() =~= decimal(n / 10));
        assert forall|i: int| 0 <= i < decimal(n).len() implies '0' <= #[trigger] decimal(n)[i]
            <= '9' by {
            if i < decimal(n / 10).len() {
                assert(decimal(n)[i] == decimal(n / 10)[i]);
            }
        }
    }
}

/// An entry whose name is the number of a class, written in decimal, is for that class.
pub proof fn lemma_entry_is_for_named_class(item: crate::stringtables::ItemModel, class_id: i32)
    requires
        class_id >= 0,
        item.string == Some(vstd::utf8::encode_utf8(decimal(class_id as nat))),
    ensures
        class_of(item) == Some(Ok::<i32, ParseIntError>(class_id)),
{
    let name = decimal(class_id as nat);
    lemma_decimal(class_id as nat);
    vstd::utf8::encode_utf8_valid_utf8(name);
    vstd::utf8::encode_utf8_decode_utf8(name);
    assert(name.len() > 0);
    assert('0' <= name[0] <= '9');
}

/// An entry without a name, or with one that is not text, is for no class, and changes nothing.
pub proof fn lemma_nameless_entry_is_passed_over(
    data: Seq<Option<Seq<u8>>>,
    item: crate::stringtables::ItemModel,
)
    requires
        item.string is None || !vstd::utf8::valid_utf8(item.string->Some_0),
    ensures
        class_of(item) is None,
        applied(data, seq![item]) == (Ok::<(), UpdateBaselineError>(()), data),
{
    reveal_with_fuel(applied, 2);
    assert(seq![item].skip(1) =~= Seq::empty());
}

/// An entry for a class gives that class its data, and leaves all other classes alone. An entry for a
/// class that there is not changes nothing and is an error that tells the class.
pub proof fn lemma_entry_sets_its_class(
    data: Seq<Option<Seq<u8>>>,
    item: crate::stringtables::ItemModel,
    class_id: i32,
)
    requires
        class_of(item) == Some(Ok::<i32, ParseIntError>(class_id)),
    ensures
        ({
            let (result, after) = applied(data, seq![item]);
            if 0 <= class_id < data.len() {
                &&& result is Ok
                &&& after.len() == data.len()
                &&& after[class_id as int] == item.user_data
                &&& forall|j: int|
                    0 <= j < data.len() && j != class_id ==> #[trigger] after[j] == data[j]
            } else {
                &&& result == Err::<(), UpdateBaselineError>(
                    UpdateBaselineError::UnknownClass { class_id },
                )
                &&& after == data
            }
        }),
{
    reveal_with_fuel(applied, 2);
    assert(seq![item].skip(1) =~= Seq::empty());
}

/// Entries are taken over one after the other. The first that cannot be ends it, and what was taken over
/// before it stays.
pub proof fn lemma_entries_in_turn(
    data: Seq<Option<Seq<u8>>>,
    first: Seq<crate::stringtables::ItemModel>,
    rest: Seq<crate::stringtables::ItemModel>,
)
    ensures
        applied(data, first + rest) == if applied(data, first).0 is Ok {
            applied(applied(data, first).1, rest)
        } else {
            applied(data, first)
        },
        applied(data, Seq::empty()) == (Ok::<(), UpdateBaselineError>(()), data),
    decreases first.len(),
{
    if first.len() == 0 {
        assert(first + rest =~= rest);
    } else {
        assert((first + rest).skip(1) =~= first.skip(1) + rest);
        assert((first + rest)[0] == first[0]);
        if let Some(Ok(class_id)) = class_of(first[0]) {
            if 0 <= class_id < data.len() {
                lemma_entries_in_turn(
                    data.update(class_id as int, first[0].user_data),
                    first.skip(1),
                    rest,
                );
            }
        }
        lemma_entries_in_turn(data, first.skip(1), rest);
    }
}

/// There is room for every class, and never less than before. A class that is new has no baseline.
pub proof fn lemma_resized_has_room(data: Seq<Option<Seq<u8>>>, classes: nat, class_id: int)
    ensures
        classes <= data.len() ==> resized(data, classes) == data,
        classes > data.len() ==> resized(data, classes).len() == classes,
        data.len() <= class_id < classes ==> resized(data, classes)[class_id] is None,
{
}

} // verus!
