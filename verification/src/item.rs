use vstd::prelude::*;

verus! {

use vstd::utf8::encode_utf8;
use crate::number::NumberParseError;
use crate::number::calc_num_size;
use crate::number::number_encoded_size;

/// A typed attribute value of a record, the unit the backend prices.
/// A value is a tree: lists and maps nest arbitrarily.
#[derive(Debug)]
pub enum AttributeValue {
    /// A binary blob.
    B(Vec<u8>),
    /// A boolean.
    Bool(bool),
    /// A set of binary blobs.
    Bs(Vec<Vec<u8>>),
    /// An ordered list of values.
    L(Vec<AttributeValue>),
    /// A mapping of names to values.
    M(Vec<(String, AttributeValue)>),
    /// A decimal number, kept in its text form.
    N(String),
    /// A set of decimal numbers in text form.
    Ns(Vec<String>),
    /// The null value.
    Null(bool),
    /// A text string.
    S(String),
    /// A set of text strings.
    Ss(Vec<String>),
    /// A shape with no representable value; sizing it is an error.
    Unsupported,
}

/// Why a record's size could not be computed.
#[derive(PartialEq, Eq, Structural, Debug, Clone, Hash)]
pub enum ItemSizeCalculationError {
    /// The tree holds an attribute shape with no representable value.
    InvalidAttribute,
    /// A numeric attribute's text is not a well-formed decimal numeral.
    InvalidNumberFormat(NumberParseError),
}

impl From<NumberParseError> for ItemSizeCalculationError {
    fn from(e: NumberParseError) -> ItemSizeCalculationError {
        ItemSizeCalculationError::InvalidNumberFormat(e)
    }
}

impl vstd::std_specs::convert::FromSpecImpl<NumberParseError> for ItemSizeCalculationError {
    open spec fn obeys_from_spec() -> bool {
        true
    }

    open spec fn from_spec(e: NumberParseError) -> ItemSizeCalculationError {
        ItemSizeCalculationError::InvalidNumberFormat(e)
    }
}

/// Length in bytes of a text value, UTF-8 encoded.
pub open spec fn str_bytes_len(s: Seq<char>) -> int {
    encode_utf8(s).len() as int
}

/// Total byte length of a set of binary blobs.
pub open spec fn blob_set_size(bs: Seq<Vec<u8>>) -> int
    decreases bs.len(),
{
    if bs.len() == 0 {
        0
    } else {
        blob_set_size(bs.drop_last()) + bs.last()@.len()
    }
}

/// Total byte length of a set of text strings.
pub open spec fn str_set_size(ss: Seq<String>) -> int
    decreases ss.len(),
{
    if ss.len() == 0 {
        0
    } else {
        str_set_size(ss.drop_last()) + str_bytes_len(ss.last()@)
    }
}

/// Total encoded size of a set of decimal numbers, or the first parse
/// error met scanning the members in order.
pub open spec fn num_set_size(ns: Seq<String>) -> Result<int, NumberParseError>
    decreases ns.len(),
{
    if ns.len() == 0 {
        Ok(0)
    } else {
        match num_set_size(ns.drop_last()) {
            Err(e) => Err(e),
            Ok(t) => match number_encoded_size(encode_utf8(ns.last()@)) {
                Err(e) => Err(e),
                Ok(s) => Ok(t + s),
            },
        }
    }
}

/// Encoded size of one attribute value, per the backend's accounting
/// rules, or the first error met by a depth-first, left-to-right walk.
pub open spec fn spec_attr_size(a: AttributeValue) -> Result<int, ItemSizeCalculationError>
    decreases a,
{
    match a {
        AttributeValue::B(blob) => Ok(blob@.len() as int),
        AttributeValue::Bool(_) => Ok(1),
        AttributeValue::Bs(bs) => Ok(blob_set_size(bs@)),
        AttributeValue::L(l) => match spec_list_size(l@) {
            Err(e) => Err(e),
            Ok(t) => Ok(t + 3),
        },
        AttributeValue::M(m) => match spec_map_size(m@) {
            Err(e) => Err(e),
            Ok(t) => Ok(t + 3),
        },
        AttributeValue::N(num) => match number_encoded_size(encode_utf8(num@)) {
            Err(e) => Err(ItemSizeCalculationError::InvalidNumberFormat(e)),
            Ok(s) => Ok(s),
        },
        AttributeValue::Ns(ns) => match num_set_size(ns@) {
            Err(e) => Err(ItemSizeCalculationError::InvalidNumberFormat(e)),
            Ok(s) => Ok(s),
        },
        AttributeValue::Null(_) => Ok(1),
        AttributeValue::S(s) => Ok(str_bytes_len(s@)),
        AttributeValue::Ss(ss) => Ok(str_set_size(ss@)),
        AttributeValue::Unsupported => Err(ItemSizeCalculationError::InvalidAttribute),
    }
}

/// Sum over a list's elements of element size plus one, or the first
/// error, in order.
pub open spec fn spec_list_size(l: Seq<AttributeValue>) -> Result<int, ItemSizeCalculationError>
    decreases l,
{
    if l.len() == 0 {
        Ok(0)
    } else {
        match spec_list_size(l.drop_last()) {
            Err(e) => Err(e),
            Ok(t) => match spec_attr_size(l.last()) {
                Err(e) => Err(e),
                Ok(s) => Ok(t + s + 1),
            },
        }
    }
}

/// Sum over a map's entries of key length plus value size plus one, or the
/// first error, in order.
pub open spec fn spec_map_size(m: Seq<(String, AttributeValue)>) -> Result<
    int,
    ItemSizeCalculationError,
>
    decreases m,
{
    if m.len() == 0 {
        Ok(0)
    } else {
        match spec_map_size(m.drop_last()) {
            Err(e) => Err(e),
            Ok(t) => match spec_attr_size(m.last().1) {
                Err(e) => Err(e),
                Ok(s) => Ok(t + str_bytes_len(m.last().0@) + s + 1),
            },
        }
    }
}

/// Size of a whole record: the sum over its attributes of name length plus
/// value size, or the first error, in order.
pub open spec fn spec_item_size(entries: Seq<(String, AttributeValue)>) -> Result<
    int,
    ItemSizeCalculationError,
>
    decreases entries.len(),
{
    if entries.len() == 0 {
        Ok(0)
    } else {
        match spec_item_size(entries.drop_last()) {
            Err(e) => Err(e),
            Ok(t) => match spec_attr_size(entries.last().1) {
                Err(e) => Err(e),
                Ok(s) => Ok(t + str_bytes_len(entries.last().0@) + s),
            },
        }
    }
}

/// Machine-size side conditions under which the estimator cannot overflow:
/// every partial sum fits in `usize`, and every numeric text is short
/// enough for the digit counters. Any value that exists in memory meets
/// them; they only rule out values too large to build.
pub open spec fn size_in_bounds(a: AttributeValue) -> bool
    decreases a,
{
    &&& (spec_attr_size(a) matches Ok(n) ==> n <= usize::MAX)
    &&& match a {
        AttributeValue::L(l) => {
            &&& forall|i: int| 0 <= i < l@.len() ==> size_in_bounds(#[trigger] l@[i])
            &&& forall|i: int|
                0 <= i <= l@.len() ==> (#[trigger] spec_list_size(l@.subrange(0, i)) matches Ok(t)
                    ==> t <= usize::MAX)
        },
        AttributeValue::M(m) => {
            &&& forall|i: int| 0 <= i < m@.len() ==> size_in_bounds((#[trigger] m@[i]).1)
            &&& forall|i: int|
                0 <= i <= m@.len() ==> (#[trigger] spec_map_size(m@.subrange(0, i)) matches Ok(t)
                    ==> t <= usize::MAX)
        },
        AttributeValue::Bs(bs) => forall|i: int|
            0 <= i <= bs@.len() ==> #[trigger] blob_set_size(bs@.subrange(0, i)) <= usize::MAX,
        AttributeValue::Ss(ss) => forall|i: int|
            0 <= i <= ss@.len() ==> #[trigger] str_set_size(ss@.subrange(0, i)) <= usize::MAX,
        AttributeValue::Ns(ns) => {
            &&& forall|i: int| 0 <= i < ns@.len() ==> str_bytes_len((#[trigger] ns@[i])@) <= i32::MAX
            &&& forall|i: int|
                0 <= i <= ns@.len() ==> (#[trigger] num_set_size(ns@.subrange(0, i)) matches Ok(t)
                    ==> t <= usize::MAX)
        },
        AttributeValue::N(num) => str_bytes_len(num@) <= i32::MAX,
        _ => true,
    }
}

/// Machine-size side conditions for a whole record, mirroring
/// `size_in_bounds` at the attribute level.
pub open spec fn item_in_bounds(entries: Seq<(String, AttributeValue)>) -> bool {
    &&& forall|i: int| 0 <= i < entries.len() ==> size_in_bounds((#[trigger] entries[i]).1)
    &&& forall|i: int|
        0 <= i <= entries.len() ==> (#[trigger] spec_item_size(entries.subrange(0, i)) matches Ok(t)
            ==> t <= usize::MAX)
}

/// Once a prefix of a list fails, the whole list fails the same way.
proof fn lemma_list_err_extends(l: Seq<AttributeValue>, i: int)
    requires
        0 <= i <= l.len(),
        spec_list_size(l.subrange(0, i)) matches Err(_),
    ensures
        spec_list_size(l) == spec_list_size(l.subrange(0, i)),
    decreases l.len() - i,
{
    if i == l.len() {
        assert(l.subrange(0, i) =~= l);
    } else {
        assert(l.subrange(0, i + 1).drop_last() =~= l.subrange(0, i));
        lemma_list_err_extends(l, i + 1);
    }
}

/// Once a prefix of a map fails, the whole map fails the same way.
proof fn lemma_map_err_extends(m: Seq<(String, AttributeValue)>, i: int)
    requires
        0 <= i <= m.len(),
        spec_map_size(m.subrange(0, i)) matches Err(_),
    ensures
        spec_map_size(m) == spec_map_size(m.subrange(0, i)),
    decreases m.len() - i,
{
    if i == m.len() {
        assert(m.subrange(0, i) =~= m);
    } else {
        assert(m.subrange(0, i + 1).drop_last() =~= m.subrange(0, i));
        lemma_map_err_extends(m, i + 1);
    }
}

/// Once a prefix of a number set fails, the whole set fails the same way.
proof fn lemma_num_set_err_extends(ns: Seq<String>, i: int)
    requires
        0 <= i <= ns.len(),
        num_set_size(ns.subrange(0, i)) matches Err(_),
    ensures
        num_set_size(ns) == num_set_size(ns.subrange(0, i)),
    decreases ns.len() - i,
{
    if i == ns.len() {
        assert(ns.subrange(0, i) =~= ns);
    } else {
        assert(ns.subrange(0, i + 1).drop_last() =~= ns.subrange(0, i));
        lemma_num_set_err_extends(ns, i + 1);
    }
}

/// Once a prefix of a record fails, the whole record fails the same way.
proof fn lemma_item_err_extends(entries: Seq<(String, AttributeValue)>, i: int)
    requires
        0 <= i <= entries.len(),
        spec_item_size(entries.subrange(0, i)) matches Err(_),
    ensures
        spec_item_size(entries) == spec_item_size(entries.subrange(0, i)),
    decreases entries.len() - i,
{
    if i == entries.len() {
        assert(entries.subrange(0, i) =~= entries);
    } else {
        assert(entries.subrange(0, i + 1).drop_last() =~= entries.subrange(0, i));
        lemma_item_err_extends(entries, i + 1);
    }
}

/// Estimated encoded size of one attribute value, walking the tree
/// depth-first and returning the first error without sizing the remaining
/// siblings.
#[verifier::loop_isolation(false)]
pub fn calculate_estimated_attr_size(attr: &AttributeValue) -> (r: Result<
    usize,
    ItemSizeCalculationError,
>)
    requires
        size_in_bounds(*attr),
    ensures
        match r {
            Ok(n) => spec_attr_size(*attr) == Ok::<int, ItemSizeCalculationError>(n as int),
            Err(e) => spec_attr_size(*attr) == Err::<int, ItemSizeCalculationError>(e),
        },
    decreases *attr,
{
    match attr {
        AttributeValue::B(blob) => Ok(blob.len()),
        AttributeValue::Bool(_) => Ok(1),
        AttributeValue::Bs(bs) => {
            let mut total: usize = 0;
            let mut i: usize = 0;
            while i < bs.len()
                invariant
                    i <= bs@.len(),
                    blob_set_size(bs@.subrange(0, i as int)) == total as int,
                decreases bs@.len() - i,
            {
                proof {
                    assert(bs@.subrange(0, i + 1).drop_last() =~= bs@.subrange(0, i as int));
                    assert(bs@.subrange(0, i + 1).last() == bs@[i as int]);
                    assert(blob_set_size(bs@.subrange(0, i + 1)) <= usize::MAX);
                }
                total = total + bs[i].len();
                i = i + 1;
            }
            proof {
                assert(bs@.subrange(0, bs@.len() as int) =~= bs@);
            }
            Ok(total)
        },
        AttributeValue::L(l) => {
            let mut total: usize = 0;
            let mut i: usize = 0;
            while i < l.len()
                invariant
                    i <= l@.len(),
                    spec_list_size(l@.subrange(0, i as int)) == Ok::<
                        int,
                        ItemSizeCalculationError,
                    >(total as int),
                decreases l@.len() - i,
            {
                proof {
                    assert(decreases_to!(*attr => l@[i as int]));
                    assert(l@.subrange(0, i + 1).drop_last() =~= l@.subrange(0, i as int));
                    assert(l@.subrange(0, i + 1).last() == l@[i as int]);
                }
                match calculate_estimated_attr_size(&l[i]) {
                    Ok(s) => {
                        proof {
                            assert(spec_list_size(l@.subrange(0, i + 1)) == Ok::<
                                int,
                                ItemSizeCalculationError,
                            >(total as int + s as int + 1));
                            assert(total as int + s as int + 1 <= usize::MAX);
                        }
                        total = total + s + 1;
                    },
                    Err(e) => {
                        proof {
                            assert(spec_list_size(l@.subrange(0, i + 1)) == Err::<
                                int,
                                ItemSizeCalculationError,
                            >(e));
                            lemma_list_err_extends(l@, i + 1);
                        }
                        return Err(e);
                    },
                }
                i = i + 1;
            }
            proof {
                assert(l@.subrange(0, l@.len() as int) =~= l@);
            }
            Ok(total + 3)
        },
        AttributeValue::M(m) => {
            let mut total: usize = 0;
            let mut i: usize = 0;
            while i < m.len()
                invariant
                    i <= m@.len(),
                    spec_map_size(m@.subrange(0, i as int)) == Ok::<
                        int,
                        ItemSizeCalculationError,
                    >(total as int),
                decreases m@.len() - i,
            {
                proof {
                    assert(decreases_to!(*attr => m@[i as int].1));
                    assert(m@.subrange(0, i + 1).drop_last() =~= m@.subrange(0, i as int));
                    assert(m@.subrange(0, i + 1).last() == m@[i as int]);
                }
                match calculate_estimated_attr_size(&m[i].1) {
                    Ok(s) => {
                        proof {
                            assert(spec_map_size(m@.subrange(0, i + 1)) == Ok::<
                                int,
                                ItemSizeCalculationError,
                            >(total as int + str_bytes_len(m@[i as int].0@) + s as int + 1));
                            assert(total as int + str_bytes_len(m@[i as int].0@) + s as int
                                + 1 <= usize::MAX);
                        }
                        let klen = m[i].0.as_str().len();
                        total = total + klen + s + 1;
                    },
                    Err(e) => {
                        proof {
                            assert(spec_map_size(m@.subrange(0, i + 1)) == Err::<
                                int,
                                ItemSizeCalculationError,
                            >(e));
                            lemma_map_err_extends(m@, i + 1);
                        }
                        return Err(e);
                    },
                }
                i = i + 1;
            }
            proof {
                assert(m@.subrange(0, m@.len() as int) =~= m@);
            }
            Ok(total + 3)
        },
        AttributeValue::N(num) => {
            match calc_num_size(num.as_str()) {
                Ok(s) => Ok(s),
                Err(e) => Err(ItemSizeCalculationError::InvalidNumberFormat(e)),
            }
        },
        AttributeValue::Ns(ns) => {
            let mut total: usize = 0;
            let mut i: usize = 0;
            while i < ns.len()
                invariant
                    i <= ns@.len(),
                    num_set_size(ns@.subrange(0, i as int)) == Ok::<int, NumberParseError>(
                        total as int,
                    ),
                decreases ns@.len() - i,
            {
                proof {
                    assert(ns@.subrange(0, i + 1).drop_last() =~= ns@.subrange(0, i as int));
                    assert(ns@.subrange(0, i + 1).last() == ns@[i as int]);
                }
                match calc_num_size(ns[i].as_str()) {
                    Ok(s) => {
                        proof {
                            assert(num_set_size(ns@.subrange(0, i + 1)) == Ok::<
                                int,
                                NumberParseError,
                            >(total as int + s as int));
                            assert(total as int + s as int <= usize::MAX);
                        }
                        total = total + s;
                    },
                    Err(e) => {
                        proof {
                            assert(num_set_size(ns@.subrange(0, i + 1)) == Err::<
                                int,
                                NumberParseError,
                            >(e));
                            lemma_num_set_err_extends(ns@, i + 1);
                        }
                        return Err(ItemSizeCalculationError::InvalidNumberFormat(e));
                    },
                }
                i = i + 1;
            }
            proof {
                assert(ns@.subrange(0, ns@.len() as int) =~= ns@);
            }
            Ok(total)
        },
        AttributeValue::Null(_) => Ok(1),
        AttributeValue::S(s) => {
            proof {
                assert(str_bytes_len(s@) <= usize::MAX);
            }
            Ok(s.as_str().len())
        },
        AttributeValue::Ss(ss) => {
            let mut total: usize = 0;
            let mut i: usize = 0;
            while i < ss.len()
                invariant
                    i <= ss@.len(),
                    str_set_size(ss@.subrange(0, i as int)) == total as int,
                decreases ss@.len() - i,
            {
                proof {
                    assert(ss@.subrange(0, i + 1).drop_last() =~= ss@.subrange(0, i as int));
                    assert(ss@.subrange(0, i + 1).last() == ss@[i as int]);
                    assert(str_set_size(ss@.subrange(0, i + 1)) <= usize::MAX);
                }
                total = total + ss[i].as_str().len();
                i = i + 1;
            }
            proof {
                assert(ss@.subrange(0, ss@.len() as int) =~= ss@);
            }
            Ok(total)
        },
        AttributeValue::Unsupported => Err(ItemSizeCalculationError::InvalidAttribute),
    }
}

/// Estimated encoded size of a whole record: the sum over its attributes
/// of name length plus value size, stopping at the first invalid
/// attribute.
#[verifier::loop_isolation(false)]
pub fn calculate_estimated_item_size(item: &Vec<(String, AttributeValue)>) -> (r: Result<
    usize,
    ItemSizeCalculationError,
>)
    requires
        item_in_bounds(item@),
    ensures
        match r {
            Ok(n) => spec_item_size(item@) == Ok::<int, ItemSizeCalculationError>(n as int),
            Err(e) => spec_item_size(item@) == Err::<int, ItemSizeCalculationError>(e),
        },
{
    let mut total: usize = 0;
    let mut i: usize = 0;
    while i < item.len()
        invariant
            i <= item@.len(),
            spec_item_size(item@.subrange(0, i as int)) == Ok::<int, ItemSizeCalculationError>(
                total as int,
            ),
        decreases item@.len() - i,
    {
        proof {
            assert(item@.subrange(0, i + 1).drop_last() =~= item@.subrange(0, i as int));
            assert(item@.subrange(0, i + 1).last() == item@[i as int]);
        }
        match calculate_estimated_attr_size(&item[i].1) {
            Ok(s) => {
                proof {
                    assert(spec_item_size(item@.subrange(0, i + 1)) == Ok::<
                        int,
                        ItemSizeCalculationError,
                    >(total as int + str_bytes_len(item@[i as int].0@) + s as int));
                    assert(total as int + str_bytes_len(item@[i as int].0@) + s as int
                        <= usize::MAX);
                }
                let klen = item[i].0.as_str().len();
                total = total + klen + s;
            },
            Err(e) => {
                proof {
                    assert(spec_item_size(item@.subrange(0, i + 1)) == Err::<
                        int,
                        ItemSizeCalculationError,
                    >(e));
                    lemma_item_err_extends(item@, i + 1);
                }
                return Err(e);
            },
        }
        i = i + 1;
    }
    proof {
        assert(item@.subrange(0, item@.len() as int) =~= item@);
    }
    Ok(total)
}

} // verus!
