//! API-key storage: named service keys, looked up by service name.

use vstd::prelude::*;

verus! {

/// The key an entry list holds for `name`: the first entry with that
/// name, or none.
pub open spec fn key_of(keys: Seq<(Seq<char>, Seq<char>)>, name: Seq<char>) -> Option<Seq<char>>
    decreases keys.len(),
{
    if keys.len() == 0 {
        None
    } else if keys[0].0 == name {
        Some(keys[0].1)
    } else {
        key_of(keys.drop_first(), name)
    }
}

/// A linear first-match search agrees with `key_of`.
proof fn lemma_key_of_first_match(keys: Seq<(Seq<char>, Seq<char>)>, name: Seq<char>, j: int)
    requires
        0 <= j <= keys.len(),
        forall|k: int| 0 <= k < j ==> (#[trigger] keys[k]).0 != name,
        j < keys.len() ==> keys[j].0 == name,
    ensures
        key_of(keys, name) == if j == keys.len() {
            None
        } else {
            Some(keys[j].1)
        },
    decreases j,
{
    if j > 0 {
        lemma_key_of_first_match(keys.drop_first(), name, j - 1);
    }
}

/// A set of named API keys. Each entry pairs a service name (the
/// environment variable name stripped of its `_API_KEY` suffix, when the
/// keys come from the environment) with its key.
pub struct KeyChain {
    keys: Vec<(String, String)>,
}

impl View for KeyChain {
    type V = Seq<(Seq<char>, Seq<char>)>;

    closed spec fn view(&self) -> Seq<(Seq<char>, Seq<char>)> {
        self.keys@.map_values(|p: (String, String)| (p.0@, p.1@))
    }
}

impl KeyChain {
    /// A key chain over the given `(service name, key)` entries.
    pub fn from_pairs(keys: Vec<(String, String)>) -> (r: KeyChain)
        ensures
            r@ == keys@.map_values(|p: (String, String)| (p.0@, p.1@)),
    {
        KeyChain { keys }
    }

    /// The key stored under `name`, if any: the first matching entry.
    pub fn get_api_key(&self, name: &str) -> (r: Option<String>)
        ensures
            match r {
                Some(v) => key_of(self@, name@) == Some(v@),
                None => key_of(self@, name@) is None,
            },
    {
        let owned: String = name.to_owned();
        let mut j: usize = 0;
        loop
            invariant
                j <= self.keys@.len(),
                owned@ == name@,
                forall|k: int| 0 <= k < j ==> (#[trigger] self@[k]).0 != name@,
            ensures
                j == self.keys@.len(),
                forall|k: int| 0 <= k < j ==> (#[trigger] self@[k]).0 != name@,
            decreases self.keys@.len() - j,
        {
            if j == self.keys.len() {
                break;
            }
            if self.keys[j].0.eq(&owned) {
                proof {
                    lemma_key_of_first_match(self@, name@, j as int);
                }
                return Some(self.keys[j].1.clone());
            }
            j += 1;
        }
        proof {
            lemma_key_of_first_match(self@, name@, self@.len() as int);
        }
        None
    }
}

} // verus!
