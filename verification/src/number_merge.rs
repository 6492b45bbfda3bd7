//! Merging trees of counters.
//!
//! Usage counters arrive spread over many events. They are merged field by
//! field: objects are united by field name, integers are added.

use crate::json::{fields_view, find_key, lemma_view_object, position, Json, JsonValue};
use vstd::prelude::*;

verus! {

/// `n`, or the nearest integer of 64 signed bits.
pub open spec fn clamp(n: int) -> int {
    if n > i64::MAX {
        i64::MAX as int
    } else if n < i64::MIN {
        i64::MIN as int
    } else {
        n
    }
}

/// True for both kinds of JSON number.
pub open spec fn is_number(v: JsonValue) -> bool {
    v is Int || v is Number
}

/// What a number counts for in a sum: its value where it is an integer of
/// 64 signed bits, zero otherwise.
pub open spec fn count(v: JsonValue) -> int {
    match v {
        JsonValue::Int(n) => n,
        _ => 0,
    }
}

/// What a null target stands for when `add` is merged into it: the empty
/// object before an object, zero before a number.
pub open spec fn started(target: JsonValue, add: JsonValue) -> JsonValue {
    if !(target is Null) {
        target
    } else if add is Object {
        JsonValue::Object(Seq::empty())
    } else if is_number(add) {
        JsonValue::Int(0)
    } else {
        target
    }
}

/// `add` merged into `target`. Two objects are merged field by field; two
/// numbers are added, the sum clamped to 64 signed bits; in any other case
/// the target stays as it is.
pub open spec fn merged(target: JsonValue, add: JsonValue) -> JsonValue
    decreases add, 0int,
{
    let base = started(target, add);
    if base is Object && add is Object {
        JsonValue::Object(merged_fields(base->Object_0, add->Object_0, 0))
    } else if is_number(base) && is_number(add) {
        JsonValue::Int(clamp(count(base) + count(add)))
    } else {
        base
    }
}

/// The fields `add[from..]` merged into `target`, one after the other: a
/// field that `target` has is merged into its first entry of that name, a
/// field that it lacks is added at the end.
pub open spec fn merged_fields(
    target: Seq<(Seq<char>, JsonValue)>,
    add: Seq<(Seq<char>, JsonValue)>,
    from: int,
) -> Seq<(Seq<char>, JsonValue)>
    decreases add, add.len() - from,
{
    if from < 0 || from >= add.len() {
        target
    } else {
        merged_fields(merged_field(target, add, from), add, from + 1)
    }
}

/// The field `add[from]` merged into `target`.
pub open spec fn merged_field(
    target: Seq<(Seq<char>, JsonValue)>,
    add: Seq<(Seq<char>, JsonValue)>,
    from: int,
) -> Seq<(Seq<char>, JsonValue)>
    decreases add, 0int,
{
    if from < 0 || from >= add.len() {
        target
    } else {
        let at = find_key(target, add[from].0, 0);
        if 0 <= at < target.len() {
            target.update(at, (target[at].0, merged(target[at].1, add[from].1)))
        } else {
            target.push(add[from])
        }
    }
}

/// A counter of 64 signed bits never falls when something that is not
/// negative is added: the sum is a number that counts for no less than the
/// target did.
pub proof fn lemma_count_grows(target: JsonValue, add: JsonValue)
    requires
        is_number(target),
        is_number(add),
        count(target) <= i64::MAX,
        count(add) >= 0,
    ensures
        merged(target, add) is Int,
        count(merged(target, add)) >= count(target),
        count(merged(target, add)) == clamp(count(target) + count(add)),
{
}

/// A counter that is merged into nothing counts for itself.
pub proof fn lemma_first_count(n: int)
    requires
        i64::MIN <= n <= i64::MAX,
    ensures
        merged(JsonValue::Null, JsonValue::Int(n)) == JsonValue::Int(n),
{
}

/// Merging fields keeps every field of the target where it stands, under its
/// name: fields are only merged into or added behind.
pub proof fn lemma_merged_fields_keep(
    target: Seq<(Seq<char>, JsonValue)>,
    add: Seq<(Seq<char>, JsonValue)>,
    from: int,
)
    ensures
        merged_fields(target, add, from).len() >= target.len(),
        forall|k: int|
            0 <= k < target.len() ==> (#[trigger] merged_fields(target, add, from)[k]).0
                == target[k].0,
    decreases add.len() - from,
{
    if 0 <= from < add.len() {
        let next = merged_field(target, add, from);
        crate::json::lemma_find_key(target, add[from].0, 0);
        lemma_merged_fields_keep(next, add, from + 1);
        assert forall|k: int| 0 <= k < target.len() implies (#[trigger] merged_fields(
            target,
            add,
            from,
        )[k]).0 == target[k].0 by {
            assert(merged_fields(next, add, from + 1)[k].0 == next[k].0);
        }
    }
}

/// `a + b`, clamped to 64 signed bits.
pub fn add_clamped(a: i64, b: i64) -> (r: i64)
    ensures
        r == clamp(a + b),
{
    if b > 0 && a > i64::MAX - b {
        i64::MAX
    } else if b < 0 && a < i64::MIN - b {
        i64::MIN
    } else {
        a + b
    }
}

/// What `j` counts for in a sum.
fn count_of(j: &Json) -> (r: i64)
    ensures
        r == count(j@),
{
    match j {
        Json::Int(n) => *n,
        _ => 0,
    }
}

/// Merges `add` into `target`: see `merged`.
pub fn merge_number(target: &mut Json, add: &Json)
    ensures
        final(target)@ == merged(old(target)@, add@),
    decreases add,
{
    let target_is_null = match &*target {
        Json::Null => true,
        _ => false,
    };
    if target_is_null {
        match add {
            Json::Object(_) => {
                let empty: Vec<(String, Json)> = Vec::new();
                proof {
                    lemma_view_object(empty);
                    assert(fields_view(empty@) =~= Seq::empty());
                }
                *target = Json::Object(empty);
            },
            Json::Int(_) => {
                *target = Json::Int(0);
            },
            Json::Number(_) => {
                *target = Json::Int(0);
            },
            _ => {
                return ;
            },
        }
    }
    assert(target@ == started(old(target)@, add@));
    match add {
        Json::Object(add_fields) => {
            let target_is_object = match &*target {
                Json::Object(_) => true,
                _ => false,
            };
            if target_is_object {
                let mut taken = Json::Null;
                core::mem::swap(target, &mut taken);
                let mut fields = taken.into_fields();
                let ghost before = fields_view(fields@);
                let ghost adds = fields_view(add_fields@);
                proof {
                    lemma_view_object(*add_fields);
                }
                let mut i: usize = 0;
                while i < add_fields.len()
                    invariant
                        i <= add_fields@.len(),
                        *add == Json::Object(*add_fields),
                        adds == fields_view(add_fields@),
                        merged_fields(before, adds, 0) == merged_fields(
                            fields_view(fields@),
                            adds,
                            i as int,
                        ),
                    decreases add_fields@.len() - i,
                {
                    let ghost current = fields_view(fields@);
                    let at = position(&fields, &add_fields[i].0);
                    if at < fields.len() {
                        proof {
                            let v = add->Object_0;
                            assert(decreases_to!(add => add->Object_0));
                            vstd::std_specs::vec::axiom_vec_index_decreases(v, i as int);
                            assert(decreases_to!(v[i as int] => v[i as int].1));
                        }
                        merge_number(&mut fields[at].1, &add_fields[i].1);
                    } else {
                        let name = add_fields[i].0.clone();
                        let value = add_fields[i].1.clone();
                        fields.push((name, value));
                    }
                    assert(fields_view(fields@) =~= merged_field(current, adds, i as int));
                    i += 1;
                }
                proof {
                    lemma_view_object(fields);
                }
                *target = Json::Object(fields);
            }
        },
        Json::Int(_) => {
            merge_count(target, add);
        },
        Json::Number(_) => {
            merge_count(target, add);
        },
        _ => {},
    }
}

/// Adds the number `add` to `target` where `target` is a number too.
fn merge_count(target: &mut Json, add: &Json)
    requires
        is_number(add@),
    ensures
        final(target)@ == (if is_number(old(target)@) {
            JsonValue::Int(clamp(count(old(target)@) + count(add@)))
        } else {
            old(target)@
        }),
{
    let target_is_number = match &*target {
        Json::Int(_) => true,
        Json::Number(_) => true,
        _ => false,
    };
    if target_is_number {
        let sum = add_clamped(count_of(target), count_of(add));
        *target = Json::Int(sum);
    }
}

/// An accumulator of usage counters.
pub struct NumberMerge {
    value: Json,
}

impl View for NumberMerge {
    type V = JsonValue;

    /// The tree merged so far; null while nothing was merged.
    closed spec fn view(&self) -> JsonValue {
        self.value@
    }
}

impl Default for NumberMerge {
    fn default() -> (r: Self)
        ensures
            r@ == JsonValue::Null,
    {
        NumberMerge { value: Json::Null }
    }
}

impl NumberMerge {
    /// Merges `number` into the tree held.
    pub fn add(&mut self, number: &Json)
        ensures
            final(self)@ == merged(old(self)@, number@),
    {
        merge_number(&mut self.value, number);
    }

    /// Hands out the tree held and starts again from null.
    pub fn finish(&mut self) -> (r: Json)
        ensures
            r@ == old(self)@,
            final(self)@ == JsonValue::Null,
    {
        let mut r = Json::Null;
        core::mem::swap(&mut self.value, &mut r);
        r
    }
}

} // verus!
