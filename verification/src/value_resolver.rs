//! What the host binding makes of a reply of the backing store: the object
//! that stands for each kind of value on the other side.

use crate::errors::{FFIError, HostError};
use crate::text::{utf8_error_text, utf8_text};
use vstd::prelude::*;
use vstd::slice::slice_to_vec;
use vstd::utf8::{decode_utf8, valid_utf8};

verus! {

/// A reply of the backing store, as the values it is made of. A double is
/// held by its bits.
#[derive(Debug)]
pub enum RedisValue {
    Nil,
    Int(i64),
    BulkString(Vec<u8>),
    Array(Vec<RedisValue>),
    SimpleString(String),
    Okay,
    Pairs(Vec<(RedisValue, RedisValue)>),
    Members(Vec<RedisValue>),
    Double(u64),
    Boolean(bool),
    VerbatimString(String),
}

/// The object that the host gets for a reply.
#[derive(Debug)]
pub enum JavaValue {
    /// `null`.
    Null,
    /// A `java.lang.String`.
    Text(String),
    /// A `java.lang.Long`.
    Long(i64),
    /// A `byte[]`.
    ByteArray(Vec<u8>),
    /// An `Object[]`.
    ObjectArray(Vec<JavaValue>),
    /// A `java.util.LinkedHashMap`, with its entries in the order in which
    /// they are put.
    LinkedHashMap(Vec<(JavaValue, JavaValue)>),
    /// A `java.lang.Double`, held by its bits.
    Double(u64),
    /// A `java.lang.Boolean`.
    Boolean(bool),
    /// A `java.util.HashSet`, with its members in the order in which they
    /// are added.
    HashSet(Vec<JavaValue>),
}

/// An object for the host, as plain values.
pub enum Java {
    Null,
    Text(Seq<char>),
    Long(i64),
    ByteArray(Seq<u8>),
    ObjectArray(Seq<Java>),
    LinkedHashMap(Seq<(Java, Java)>),
    Double(u64),
    Boolean(bool),
    HashSet(Seq<Java>),
}

/// The objects that a sequence of values stands for.
pub open spec fn java_views(values: Seq<JavaValue>) -> Seq<Java>
    decreases values,
{
    if values.len() == 0 {
        Seq::empty()
    } else {
        proof {
            broadcast use vstd::seq::group_seq_axioms;
        }
        java_views(values.drop_last()).push(java_view(values.last()))
    }
}

/// The entries that a sequence of pairs of values stands for.
pub open spec fn java_pair_views(pairs: Seq<(JavaValue, JavaValue)>) -> Seq<(Java, Java)>
    decreases pairs,
{
    if pairs.len() == 0 {
        Seq::empty()
    } else {
        proof {
            broadcast use vstd::seq::group_seq_axioms;
        }
        java_pair_views(pairs.drop_last()).push(
            (java_view(pairs.last().0), java_view(pairs.last().1)),
        )
    }
}

/// The object that a value stands for.
pub open spec fn java_view(value: JavaValue) -> Java
    decreases value,
{
    match value {
        JavaValue::Null => Java::Null,
        JavaValue::Text(text) => Java::Text(text@),
        JavaValue::Long(number) => Java::Long(number),
        JavaValue::ByteArray(data) => Java::ByteArray(data@),
        JavaValue::ObjectArray(values) => {
            proof {
                broadcast use vstd::std_specs::vec::group_vec_axioms;
            }
            Java::ObjectArray(java_views(values@))
        },
        JavaValue::LinkedHashMap(pairs) => {
            proof {
                broadcast use vstd::std_specs::vec::group_vec_axioms;
            }
            Java::LinkedHashMap(java_pair_views(pairs@))
        },
        JavaValue::Double(bits) => Java::Double(bits),
        JavaValue::Boolean(flag) => Java::Boolean(flag),
        JavaValue::HashSet(values) => {
            proof {
                broadcast use vstd::std_specs::vec::group_vec_axioms;
            }
            Java::HashSet(java_views(values@))
        },
    }
}

impl View for JavaValue {
    type V = Java;

    open spec fn view(&self) -> Java {
        java_view(*self)
    }
}

/// The objects for a sequence of replies, in order, or the first error on
/// the way.
pub open spec fn resolve_all(values: Seq<RedisValue>, encoding_utf8: bool) -> Result<
    Seq<Java>,
    Seq<char>,
>
    decreases values,
{
    if values.len() == 0 {
        Ok(Seq::empty())
    } else {
        proof {
            broadcast use vstd::seq::group_seq_axioms;
        }
        match resolve_all(values.drop_last(), encoding_utf8) {
            Err(error) => Err(error),
            Ok(objects) => match resolve(values.last(), encoding_utf8) {
                Err(error) => Err(error),
                Ok(object) => Ok(objects.push(object)),
            },
        }
    }
}

/// The entries for a sequence of pairs of replies, in order and key before
/// value, or the first error on the way.
pub open spec fn resolve_pairs(
    pairs: Seq<(RedisValue, RedisValue)>,
    encoding_utf8: bool,
) -> Result<Seq<(Java, Java)>, Seq<char>>
    decreases pairs,
{
    if pairs.len() == 0 {
        Ok(Seq::empty())
    } else {
        proof {
            broadcast use vstd::seq::group_seq_axioms;
        }
        match resolve_pairs(pairs.drop_last(), encoding_utf8) {
            Err(error) => Err(error),
            Ok(entries) => match resolve(pairs.last().0, encoding_utf8) {
                Err(error) => Err(error),
                Ok(key) => match resolve(pairs.last().1, encoding_utf8) {
                    Err(error) => Err(error),
                    Ok(value) => Ok(entries.push((key, value))),
                },
            },
        }
    }
}

/// The object that the host gets for a reply. Nothing is `null`, text is a
/// string, a number is a long; a bulk string is a string where the host
/// asked for UTF-8, which its bytes then have to be, and a byte array
/// otherwise; an array, a map and a set keep their members, in order. The
/// error is the text that says why bytes are not UTF-8.
pub open spec fn resolve(value: RedisValue, encoding_utf8: bool) -> Result<Java, Seq<char>>
    decreases value,
{
    match value {
        RedisValue::Nil => Ok(Java::Null),
        RedisValue::SimpleString(text) => Ok(Java::Text(text@)),
        RedisValue::Okay => Ok(Java::Text("OK"@)),
        RedisValue::Int(number) => Ok(Java::Long(number)),
        RedisValue::BulkString(data) => if encoding_utf8 {
            if valid_utf8(data@) {
                Ok(Java::Text(decode_utf8(data@)))
            } else {
                Err(utf8_error_text(data@))
            }
        } else {
            Ok(Java::ByteArray(data@))
        },
        RedisValue::Array(values) => {
            proof {
                broadcast use vstd::std_specs::vec::group_vec_axioms;
            }
            match resolve_all(values@, encoding_utf8) {
                Ok(objects) => Ok(Java::ObjectArray(objects)),
                Err(error) => Err(error),
            }
        },
        RedisValue::Pairs(pairs) => {
            proof {
                broadcast use vstd::std_specs::vec::group_vec_axioms;
            }
            match resolve_pairs(pairs@, encoding_utf8) {
                Ok(entries) => Ok(Java::LinkedHashMap(entries)),
                Err(error) => Err(error),
            }
        },
        RedisValue::Double(bits) => Ok(Java::Double(bits)),
        RedisValue::Boolean(flag) => Ok(Java::Boolean(flag)),
        RedisValue::VerbatimString(text) => Ok(Java::Text(text@)),
        RedisValue::Members(values) => {
            proof {
                broadcast use vstd::std_specs::vec::group_vec_axioms;
            }
            match resolve_all(values@, encoding_utf8) {
                Ok(objects) => Ok(Java::HashSet(objects)),
                Err(error) => Err(error),
            }
        },
    }
}

/// An error among the first replies is the error of them all.
proof fn lemma_resolve_all_error(values: Seq<RedisValue>, encoding_utf8: bool, k: int)
    requires
        0 <= k <= values.len(),
        resolve_all(values.take(k), encoding_utf8) is Err,
    ensures
        resolve_all(values, encoding_utf8) == resolve_all(values.take(k), encoding_utf8),
    decreases values.len() - k,
{
    if k == values.len() {
        assert(values.take(k) =~= values);
    } else {
        assert(values.take(k + 1).drop_last() =~= values.take(k));
        lemma_resolve_all_error(values, encoding_utf8, k + 1);
    }
}

/// An error among the first pairs is the error of them all.
proof fn lemma_resolve_pairs_error(
    pairs: Seq<(RedisValue, RedisValue)>,
    encoding_utf8: bool,
    k: int,
)
    requires
        0 <= k <= pairs.len(),
        resolve_pairs(pairs.take(k), encoding_utf8) is Err,
    ensures
        resolve_pairs(pairs, encoding_utf8) == resolve_pairs(pairs.take(k), encoding_utf8),
    decreases pairs.len() - k,
{
    if k == pairs.len() {
        assert(pairs.take(k) =~= pairs);
    } else {
        assert(pairs.take(k + 1).drop_last() =~= pairs.take(k));
        lemma_resolve_pairs_error(pairs, encoding_utf8, k + 1);
    }
}

/// What resolving gives, as the host sees it.
pub open spec fn resolved_as(
    resolved: Result<JavaValue, FFIError>,
    wanted: Result<Java, Seq<char>>,
) -> bool {
    match wanted {
        Ok(object) => resolved matches Ok(found) && found@ == object,
        Err(text) => resolved matches Err(error) && error@ == HostError::Utf8(text),
    }
}

/// Resolves the members of an array or of a set, in order.
fn resolve_values(values: &Vec<RedisValue>, encoding_utf8: bool) -> (resolved: Result<
    Vec<JavaValue>,
    FFIError,
>)
    ensures
        match resolve_all(values@, encoding_utf8) {
            Ok(objects) => resolved matches Ok(found) && java_views(found@) == objects,
            Err(text) => resolved matches Err(error) && error@ == HostError::Utf8(text),
        },
    decreases values,
{
    broadcast use vstd::std_specs::vec::group_vec_axioms;

    let mut items: Vec<JavaValue> = Vec::new();
    let mut i: usize = 0;
    assert(values@.take(0) =~= Seq::<RedisValue>::empty());
    while i < values.len()
        invariant
            i <= values@.len(),
            resolve_all(values@.take(i as int), encoding_utf8) == Ok::<Seq<Java>, Seq<char>>(
                java_views(items@),
            ),
        decreases values@.len() - i,
    {
        proof {
            assert(values@.take(i + 1).drop_last() =~= values@.take(i as int));
            assert(values@.take(i + 1).last() == values@[i as int]);
        }
        match redis_value_to_java(&values[i], encoding_utf8) {
            Ok(item) => {
                proof {
                    assert(items@.push(item).drop_last() =~= items@);
                }
                items.push(item);
            },
            Err(error) => {
                proof {
                    lemma_resolve_all_error(values@, encoding_utf8, i + 1);
                }
                return Err(error);
            },
        }
        i += 1;
    }
    assert(values@.take(i as int) =~= values@);
    Ok(items)
}

/// Resolves the entries of a map, in order and key before value.
fn resolve_entries(pairs: &Vec<(RedisValue, RedisValue)>, encoding_utf8: bool) -> (resolved:
    Result<Vec<(JavaValue, JavaValue)>, FFIError>)
    ensures
        match resolve_pairs(pairs@, encoding_utf8) {
            Ok(entries) => resolved matches Ok(found) && java_pair_views(found@) == entries,
            Err(text) => resolved matches Err(error) && error@ == HostError::Utf8(text),
        },
    decreases pairs,
{
    broadcast use vstd::std_specs::vec::group_vec_axioms;

    let mut entries: Vec<(JavaValue, JavaValue)> = Vec::new();
    let mut i: usize = 0;
    assert(pairs@.take(0) =~= Seq::<(RedisValue, RedisValue)>::empty());
    while i < pairs.len()
        invariant
            i <= pairs@.len(),
            resolve_pairs(pairs@.take(i as int), encoding_utf8) == Ok::<
                Seq<(Java, Java)>,
                Seq<char>,
            >(java_pair_views(entries@)),
        decreases pairs@.len() - i,
    {
        proof {
            assert(pairs@.take(i + 1).drop_last() =~= pairs@.take(i as int));
            assert(pairs@.take(i + 1).last() == pairs@[i as int]);
        }
        let pair = &pairs[i];
        let key = match redis_value_to_java(&pair.0, encoding_utf8) {
            Ok(key) => key,
            Err(error) => {
                proof {
                    lemma_resolve_pairs_error(pairs@, encoding_utf8, i + 1);
                }
                return Err(error);
            },
        };
        let value = match redis_value_to_java(&pair.1, encoding_utf8) {
            Ok(value) => value,
            Err(error) => {
                proof {
                    lemma_resolve_pairs_error(pairs@, encoding_utf8, i + 1);
                }
                return Err(error);
            },
        };
        proof {
            assert(entries@.push((key, value)).drop_last() =~= entries@);
        }
        entries.push((key, value));
        i += 1;
    }
    assert(pairs@.take(i as int) =~= pairs@);
    Ok(entries)
}

/// The object for a bulk string that was read as text: a string, or the
/// error that says why its bytes are no text.
pub fn text_object(decoded: Result<String, String>) -> (resolved: Result<JavaValue, FFIError>)
    ensures
        match decoded {
            Ok(text) => resolved matches Ok(found) && found@ == Java::Text(text@),
            Err(error) => resolved matches Err(found) && found@ == HostError::Utf8(error@),
        },
{
    match decoded {
        Ok(text) => Ok(JavaValue::Text(text)),
        Err(error) => Err(FFIError::Utf8(error)),
    }
}

/// Decides which object the host gets for a reply of the backing store.
/// With `encoding_utf8` a bulk string becomes a string, and bytes that are
/// not UTF-8 are an error; without it a bulk string becomes a byte array.
pub fn redis_value_to_java(val: &RedisValue, encoding_utf8: bool) -> (resolved: Result<
    JavaValue,
    FFIError,
>)
    ensures
        resolved_as(resolved, resolve(*val, encoding_utf8)),
    decreases val,
{
    match val {
        RedisValue::Nil => Ok(JavaValue::Null),
        RedisValue::SimpleString(text) => Ok(JavaValue::Text(text.clone())),
        RedisValue::Okay => Ok(JavaValue::Text("OK".to_owned())),
        RedisValue::Int(number) => Ok(JavaValue::Long(*number)),
        RedisValue::BulkString(data) => {
            if encoding_utf8 {
                text_object(utf8_text(data.as_slice()))
            } else {
                Ok(JavaValue::ByteArray(slice_to_vec(data.as_slice())))
            }
        },
        RedisValue::Array(array) => match resolve_values(array, encoding_utf8) {
            Ok(items) => Ok(JavaValue::ObjectArray(items)),
            Err(error) => Err(error),
        },
        RedisValue::Pairs(map) => match resolve_entries(map, encoding_utf8) {
            Ok(entries) => Ok(JavaValue::LinkedHashMap(entries)),
            Err(error) => Err(error),
        },
        RedisValue::Double(bits) => Ok(JavaValue::Double(*bits)),
        RedisValue::Boolean(flag) => Ok(JavaValue::Boolean(*flag)),
        RedisValue::VerbatimString(text) => Ok(JavaValue::Text(text.clone())),
        RedisValue::Members(array) => match resolve_values(array, encoding_utf8) {
            Ok(items) => Ok(JavaValue::HashSet(items)),
            Err(error) => Err(error),
        },
    }
}

} // verus!
