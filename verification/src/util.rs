//! Helpers shared by the tokenizer and the parser.

use vstd::prelude::*;
use vstd::string::StringExecFns;

pub mod iteratorpeeker;
pub mod strings;

pub use iteratorpeeker::IteratorPeeker;

verus! {

/// The texts of `items` in one line, a comma and a space between each two.
pub open spec fn list_text(items: Seq<Seq<char>>) -> Seq<char>
    decreases items.len(),
{
    if items.len() == 0 {
        Seq::empty()
    } else if items.len() == 1 {
        items[0]
    } else {
        list_text(items.drop_last()) + ", "@ + items.last()
    }
}

/// The texts that the strings of `items` hold.
pub open spec fn texts(items: Seq<String>) -> Seq<Seq<char>> {
    Seq::new(items.len(), |i: int| items[i]@)
}

/// Builds a comma separated list of objects as a string.
pub fn build_list_str(items: &Vec<String>) -> (result: String)
    ensures
        result@ == list_text(texts(items@)),
{
    let mut result = String::new();
    let mut i: usize = 0;
    assert(texts(items@).take(0) =~= Seq::<Seq<char>>::empty());
    while i < items.len()
        invariant
            i <= items.len(),
            result@ == list_text(texts(items@).take(i as int)),
        decreases items.len() - i,
    {
        // prepend a comma if we aren't the first object.
        if i != 0 {
            result.append(", ");
        }
        result.append(items[i].as_str());
        proof {
            let before = texts(items@).take(i as int);
            let now = texts(items@).take(i + 1);
            assert(now.drop_last() =~= before);
            assert(now.last() == items[i as int]@);
            if i == 0 {
                assert(Seq::<char>::empty() + items[i as int]@ =~= items[i as int]@);
            }
        }
        i += 1;
    }
    assert(texts(items@).take(i as int) =~= texts(items@));
    result
}

} // verus!
