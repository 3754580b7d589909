//! JSON values as the configuration readers see them.

use vstd::prelude::*;

verus! {

/// A JSON value, as mathematics.
pub enum JVal {
    Null,
    Bool(bool),
    /// A number: its value where it is a non-negative integer of 64 bits, and the
    /// word of the double that the parser gives.
    Num { uint: Option<u64>, double: Option<u64> },
    Str(Seq<char>),
    Arr(Seq<JVal>),
    /// The members, each key once.
    Obj(Seq<(Seq<char>, JVal)>),
}

/// A JSON value.
pub enum Json {
    Null,
    Bool(bool),
    Num { uint: Option<u64>, double: Option<u64> },
    Str(String),
    Arr(Vec<Json>),
    Obj(Vec<(String, Json)>),
}

impl Json {
    pub open spec fn val(self) -> JVal
        decreases self,
    {
        match self {
            Json::Null => JVal::Null,
            Json::Bool(b) => JVal::Bool(b),
            Json::Num { uint, double } => JVal::Num { uint, double },
            Json::Str(s) => JVal::Str(s@),
            Json::Arr(items) => JVal::Arr(
                Seq::new(
                    items@.len(),
                    |i: int|
                        if 0 <= i < items@.len() {
                            items@[i].val()
                        } else {
                            JVal::Null
                        },
                ),
            ),
            Json::Obj(members) => JVal::Obj(
                Seq::new(
                    members@.len(),
                    |i: int|
                        if 0 <= i < members@.len() {
                            (members@[i].0@, members@[i].1.val())
                        } else {
                            (Seq::empty(), JVal::Null)
                        },
                ),
            ),
        }
    }
}

impl View for Json {
    type V = JVal;

    open spec fn view(&self) -> JVal {
        self.val()
    }
}

/// The first of the first `n` members with a key.
pub open spec fn find_member(members: Seq<(Seq<char>, JVal)>, key: Seq<char>, n: nat) -> Option<JVal>
    decreases n,
{
    if n == 0 {
        None
    } else {
        let before = find_member(members, key, (n - 1) as nat);
        if before is Some || members[n - 1].0 != key {
            before
        } else {
            Some(members[n - 1].1)
        }
    }
}

impl JVal {
    /// The member of an object with a key.
    pub open spec fn get(self, key: Seq<char>) -> Option<JVal> {
        match self {
            JVal::Obj(members) => find_member(members, key, members.len()),
            _ => None,
        }
    }

    pub open spec fn as_u64(self) -> Option<u64> {
        match self {
            JVal::Num { uint, .. } => uint,
            _ => None,
        }
    }

    pub open spec fn as_f64(self) -> Option<u64> {
        match self {
            JVal::Num { double, .. } => double,
            _ => None,
        }
    }

    pub open spec fn as_bool(self) -> Option<bool> {
        match self {
            JVal::Bool(b) => Some(b),
            _ => None,
        }
    }

    pub open spec fn as_str(self) -> Option<Seq<char>> {
        match self {
            JVal::Str(s) => Some(s),
            _ => None,
        }
    }

    pub open spec fn as_array(self) -> Option<Seq<JVal>> {
        match self {
            JVal::Arr(items) => Some(items),
            _ => None,
        }
    }

    /// The member with a key, read as an integer.
    pub open spec fn get_u64(self, key: Seq<char>) -> Option<u64> {
        match self.get(key) {
            Some(v) => v.as_u64(),
            None => None,
        }
    }

    /// The member with a key, read as a double's word.
    pub open spec fn get_f64(self, key: Seq<char>) -> Option<u64> {
        match self.get(key) {
            Some(v) => v.as_f64(),
            None => None,
        }
    }

    /// The member with a key, read as a truth value.
    pub open spec fn get_bool(self, key: Seq<char>) -> Option<bool> {
        match self.get(key) {
            Some(v) => v.as_bool(),
            None => None,
        }
    }
}

impl Json {
    /// The member of an object with a key.
    pub fn get(&self, key: &str) -> (r: Option<&Json>)
        ensures
            match r {
                Some(v) => self@.get(key@) == Some(v@),
                None => self@.get(key@) is None,
            },
    {
        match self {
            Json::Obj(members) => {
                let wanted: String = key.to_owned();
                let mut i: usize = 0;
                let ghost all = match self@ {
                    JVal::Obj(m) => m,
                    _ => Seq::empty(),
                };
                while i < members.len()
                    invariant
                        i <= members@.len(),
                        wanted@ == key@,
                        all.len() == members@.len(),
                        forall|k: int|
                            #![trigger all[k]]
                            0 <= k < members@.len() ==> all[k] == (
                                members@[k].0@,
                                members@[k].1@,
                            ),
                        find_member(all, key@, i as nat) is None,
                        self@ == JVal::Obj(all),
                    decreases members@.len() - i,
                {
                    assert(all[i as int] == (members@[i as int].0@, members@[i as int].1@));
                    if members[i].0 == wanted {
                        let v: &Json = &members[i].1;
                        proof {
                            assert(find_member(all, key@, (i + 1) as nat) == Some(v@));
                            lemma_find_stays(all, key@, (i + 1) as nat, all.len());
                        }
                        return Some(v);
                    }
                    i = i + 1;
                }
                None
            },
            _ => None,
        }
    }

    pub fn as_u64(&self) -> (r: Option<u64>)
        ensures
            r == self@.as_u64(),
    {
        match self {
            Json::Num { uint, .. } => *uint,
            _ => None,
        }
    }

    /// A number as the word of a double.
    pub fn as_f64(&self) -> (r: Option<u64>)
        ensures
            r == self@.as_f64(),
    {
        match self {
            Json::Num { double, .. } => *double,
            _ => None,
        }
    }

    pub fn as_bool(&self) -> (r: Option<bool>)
        ensures
            r == self@.as_bool(),
    {
        match self {
            Json::Bool(b) => Some(*b),
            _ => None,
        }
    }

    pub fn as_str(&self) -> (r: Option<&String>)
        ensures
            match r {
                Some(s) => self@.as_str() == Some(s@),
                None => self@.as_str() is None,
            },
    {
        match self {
            Json::Str(s) => Some(s),
            _ => None,
        }
    }

    pub fn as_array(&self) -> (r: Option<&Vec<Json>>)
        ensures
            match r {
                Some(items) => {
                    &&& self@.as_array() is Some
                    &&& self@.as_array()->0.len() == items@.len()
                    &&& forall|i: int|
                        0 <= i < items@.len() ==> (#[trigger] items@[i])@
                            == self@.as_array()->0[i]
                },
                None => self@.as_array() is None,
            },
    {
        match self {
            Json::Arr(items) => Some(items),
            _ => None,
        }
    }

    pub fn is_null(&self) -> (r: bool)
        ensures
            r == (self@ is Null),
    {
        match self {
            Json::Null => true,
            _ => false,
        }
    }

    pub fn get_u64(&self, key: &str) -> (r: Option<u64>)
        ensures
            r == self@.get_u64(key@),
    {
        match self.get(key) {
            Some(v) => v.as_u64(),
            None => None,
        }
    }

    pub fn get_f64(&self, key: &str) -> (r: Option<u64>)
        ensures
            r == self@.get_f64(key@),
    {
        match self.get(key) {
            Some(v) => v.as_f64(),
            None => None,
        }
    }

    pub fn get_bool(&self, key: &str) -> (r: Option<bool>)
        ensures
            r == self@.get_bool(key@),
    {
        match self.get(key) {
            Some(v) => v.as_bool(),
            None => None,
        }
    }
}

proof fn lemma_find_stays(members: Seq<(Seq<char>, JVal)>, key: Seq<char>, n: nat, m: nat)
    requires
        n <= m,
        find_member(members, key, n) is Some,
    ensures
        find_member(members, key, m) == find_member(members, key, n),
    decreases m,
{
    if n < m {
        lemma_find_stays(members, key, n, (m - 1) as nat);
    }
}

// Reading text.

/// The outside crate's JSON value.
#[verifier::external_type_specification]
#[verifier::external_body]
pub struct ExValue(serde_json::Value);

/// What a text parses to, or nothing where it is no JSON document.
pub uninterp spec fn parsed(text: Seq<char>) -> Option<JVal>;

/// What an outside JSON value holds.
pub uninterp spec fn contents(value: serde_json::Value) -> JVal;

/// Calls `serde_json::from_str` for a `Value`. Claimed: whether it succeeds, and
/// what the value holds, depends on the text alone.
#[verifier::external_body]
fn read_value(text: &str) -> (r: Option<serde_json::Value>)
    ensures
        match r {
            Some(v) => parsed(text@) == Some(contents(v)),
            None => parsed(text@) is None,
        },
{
    serde_json::from_str(text).ok()
}

/// Converts a `serde_json::Value`, variant by variant; a number by its `as_u64`
/// and `as_f64`. Claimed: the result holds what the value holds.
#[verifier::external_body]
fn convert(value: &serde_json::Value) -> (r: Json)
    ensures
        r@ == contents(*value),
{
    match value {
        serde_json::Value::Null => Json::Null,
        serde_json::Value::Bool(b) => Json::Bool(*b),
        serde_json::Value::Number(n) => Json::Num {
            uint: n.as_u64(),
            double: n.as_f64().map(|x| x.to_bits()),
        },
        serde_json::Value::String(s) => Json::Str(s.clone()),
        serde_json::Value::Array(items) => Json::Arr(items.iter().map(convert).collect()),
        serde_json::Value::Object(m) => Json::Obj(
            m.iter().map(|(k, v)| (k.clone(), convert(v))).collect(),
        ),
    }
}

/// Parses a JSON document.
pub fn parse(text: &str) -> (r: Option<Json>)
    ensures
        match r {
            Some(j) => parsed(text@) == Some(j@),
            None => parsed(text@) is None,
        },
{
    match read_value(text) {
        Some(v) => Some(convert(&v)),
        None => None,
    }
}

} // verus!
