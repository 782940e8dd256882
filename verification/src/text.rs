use vstd::prelude::*;
use vstd::string::StringExecFns;

verus! {

/// Whether two texts are equal.
pub fn same_text(a: &str, b: &str) -> (res: bool)
    ensures
        res == (a@ == b@),
{
    a.to_owned() == b.to_owned()
}

/// The text `` prefix`word` ``: a message that quotes `word`.
pub fn quoted(prefix: &str, word: &str) -> (res: String)
    ensures
        res@ == prefix@ + "`"@ + word@ + "`"@,
{
    prefix.to_owned().concat("`").concat(word).concat("`")
}

} // verus!
