//! File names for blueprints and books.

use vstd::prelude::*;
use vstd::string::StrSliceExecFns;

verus! {

/// Characters that may not stand in a file name: space / \ < > : " | ? *
pub open spec fn is_invalid_char(c: char) -> bool {
    c == ' ' || c == '/' || c == '\\' || c == '<' || c == '>' || c == ':' || c == '"' || c == '|'
        || c == '?' || c == '*'
}

/// `name` with each character that may not stand in a file name replaced
/// by an underscore.
pub open spec fn renamed(name: Seq<char>) -> Seq<char> {
    Seq::new(name.len(), |i: int| if is_invalid_char(name[i]) { '_' } else { name[i] })
}

/// Replaces all invalid characters in a file name with underscores.
pub fn file_rename(file_name: String) -> (r: String)
    ensures
        r@ == renamed(file_name@),
{
    let s = file_name.as_str();
    let n = s.unicode_len();
    let mut out = String::new();
    let mut i: usize = 0;
    while i < n
        invariant
            n == s@.len(),
            s@ == file_name@,
            i <= n,
            out@ == renamed(file_name@).take(i as int),
        decreases n - i,
    {
        let c = s.get_char(i);
        let invalid = c == ' ' || c == '/' || c == '\\' || c == '<' || c == '>' || c == ':' || c
            == '"' || c == '|' || c == '?' || c == '*';
        if invalid {
            proof {
                reveal_strlit("_");
            }
            out.append("_");
        } else {
            out.append(s.substring_char(i, i + 1));
        }
        proof {
            assert(renamed(file_name@).take(i as int + 1) =~= renamed(file_name@).take(i as int).push(
                renamed(file_name@)[i as int],
            ));
            assert(out@ =~= renamed(file_name@).take(i as int + 1));
        }
        i = i + 1;
    }
    proof {
        assert(renamed(file_name@).take(n as int) =~= renamed(file_name@));
    }
    out
}

} // verus!
