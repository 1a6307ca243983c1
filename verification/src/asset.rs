//! Reward and collateral assets.

use vstd::prelude::*;
use vstd::string::*;

verus! {

/// A fungible asset: a token contract or a native denomination.
#[derive(Debug, PartialEq, Eq)]
pub enum AssetInfo {
    Cw20(String),
    Native(String),
}

/// Whether two assets name the same thing: same kind, same text.
pub open spec fn same_asset(a: AssetInfo, b: AssetInfo) -> bool {
    match (a, b) {
        (AssetInfo::Cw20(x), AssetInfo::Cw20(y)) => x@ == y@,
        (AssetInfo::Native(x), AssetInfo::Native(y)) => x@ == y@,
        _ => false,
    }
}

/// Whether the first colon of `text` stands at `i`.
pub open spec fn first_colon(text: Seq<char>, i: int) -> bool {
    &&& 0 <= i < text.len()
    &&& text[i] == ':'
    &&& forall|j: int| 0 <= j < i ==> text[j] != ':'
}

/// Whether `text` has the form of a storage key: something, a colon, and
/// the rest.
pub open spec fn is_key(text: Seq<char>) -> bool {
    exists|i: int| first_colon(text, i)
}

/// Whether `asset` is what the storage key `text` with its first colon at
/// `i` stands for: a token contract where `c` stands before the colon, else
/// a native denomination, named by what follows the colon.
pub open spec fn key_names(text: Seq<char>, i: int, asset: AssetInfo) -> bool {
    match asset {
        AssetInfo::Cw20(addr) => text.subrange(0, i) == seq!['c'] && addr@ == text.subrange(
            i + 1,
            text.len() as int,
        ),
        AssetInfo::Native(denom) => text.subrange(0, i) != seq!['c'] && denom@ == text.subrange(
            i + 1,
            text.len() as int,
        ),
    }
}

/// The storage key of an asset has its first colon at index 1 and names the
/// asset it was made from.
pub proof fn lemma_key_round_trip(asset: AssetInfo)
    ensures
        first_colon(asset.key_text(), 1),
        key_names(asset.key_text(), 1, asset),
{
    reveal_strlit("c:");
    reveal_strlit("n:");
    let text = asset.key_text();
    match asset {
        AssetInfo::Cw20(addr) => {
            assert(text.subrange(0, 1) =~= seq!['c']);
            assert(text.subrange(2, text.len() as int) =~= addr@);
        },
        AssetInfo::Native(denom) => {
            assert(text.subrange(0, 1)[0] == 'n');
            assert(text.subrange(2, text.len() as int) =~= denom@);
        },
    }
}

impl Clone for AssetInfo {
    fn clone(&self) -> (r: Self)
        ensures
            r == *self,
    {
        match self {
            AssetInfo::Cw20(addr) => AssetInfo::Cw20(addr.clone()),
            AssetInfo::Native(denom) => AssetInfo::Native(denom.clone()),
        }
    }
}

impl AssetInfo {
    /// The text of the storage key of this asset: `c:` and the contract
    /// address, or `n:` and the denomination.
    pub open spec fn key_text(self) -> Seq<char> {
        match self {
            AssetInfo::Cw20(addr) => "c:"@ + addr@,
            AssetInfo::Native(denom) => "n:"@ + denom@,
        }
    }

    /// Whether `other` names the same asset.
    pub fn same(&self, other: &AssetInfo) -> (b: bool)
        ensures
            b == same_asset(*self, *other),
    {
        match (self, other) {
            (AssetInfo::Cw20(x), AssetInfo::Cw20(y)) => *x == *y,
            (AssetInfo::Native(x), AssetInfo::Native(y)) => *x == *y,
            _ => false,
        }
    }

    /// The asset that a storage key stands for.
    pub fn from_key(key: String) -> (asset: AssetInfo)
        requires
            is_key(key@),
        ensures
            exists|i: int| first_colon(key@, i) && key_names(key@, i, asset),
    {
        let text = key.as_str();
        let len = text.unicode_len();
        let mut i: usize = 0;
        while i < len && text.get_char(i) != ':'
            invariant
                i <= len,
                len == text@.len(),
                text@ == key@,
                is_key(key@),
                forall|j: int| 0 <= j < i ==> text@[j] != ':',
            decreases len - i,
        {
            i = i + 1;
        }
        assert(i < len) by {
            let k = choose|k: int| first_colon(key@, k);
            if i >= len {
                assert(key@[k] != ':');
            }
        }
        assert(first_colon(key@, i as int));
        let rest = String::from_str(text.substring_char(i + 1, len));
        let cw20 = i == 1 && text.get_char(0) == 'c';
        proof {
            if cw20 {
                assert(key@.subrange(0, i as int) =~= seq!['c']);
            } else if i == 1 {
                assert(key@.subrange(0, i as int)[0] != 'c');
            } else {
                assert(key@.subrange(0, i as int).len() != 1);
            }
        }
        if cw20 {
            AssetInfo::Cw20(rest)
        } else {
            AssetInfo::Native(rest)
        }
    }

    /// The storage key of this asset.
    pub fn to_key(&self) -> (key: String)
        ensures
            key@ == self.key_text(),
    {
        match self {
            AssetInfo::Cw20(addr) => String::from_str("c:").concat(addr.as_str()),
            AssetInfo::Native(denom) => String::from_str("n:").concat(denom.as_str()),
        }
    }
}

} // verus!
