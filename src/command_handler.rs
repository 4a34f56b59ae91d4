use vstd::prelude::*;
use crate::dota_bot::joined;

verus! {

/// A bot command with its description, for the help text.
#[derive(Debug)]
pub struct CommandDescription {
    pub keyword: String,
    pub description: String,
}

/// `s` without its leading slashes.
pub open spec fn strip_slashes(s: Seq<char>) -> Seq<char>
    decreases s.len(),
{
    if s.len() > 0 && s[0] == '/' {
        strip_slashes(s.drop_first())
    } else {
        s
    }
}

pub open spec fn string_views(v: Seq<String>) -> Seq<Seq<char>> {
    v.map_values(|s: String| s@)
}

/// Splits a chat command into its keyword and arguments: leading slashes go, then the text
/// is cut at every space (two spaces in a row give an empty argument).
pub fn parse_command(command: &str) -> (r: (String, Vec<String>))
    ensures
        joined(seq![r.0@] + string_views(r.1@)) == strip_slashes(command@),
        !r.0@.contains(' '),
        forall|i: int| 0 <= i < r.1@.len() ==> !(#[trigger] r.1@[i])@.contains(' '),
{
    let n = command.unicode_len();
    let mut start: usize = 0;
    assert(command@.subrange(0, n as int) == command@);
    while start < n && command.get_char(start) == '/'
        invariant
            n == command@.len(),
            start <= n,
            strip_slashes(command@) == strip_slashes(command@.subrange(start as int, n as int)),
        decreases n - start,
    {
        proof {
            assert(command@.subrange(start as int, n as int).drop_first() == command@.subrange(start + 1, n as int));
        }
        start = start + 1;
    }
    let ghost body = command@.subrange(start as int, n as int);
    proof {
        if start < n {
            assert(body[0] == command@[start as int]);
        }
        assert(strip_slashes(command@) == body);
    }
    let mut tokens: Vec<String> = Vec::new();
    let mut from: usize = start;
    let mut i: usize = start;
    while i < n
        invariant
            n == command@.len(),
            start <= from <= i <= n,
            body == command@.subrange(start as int, n as int),
            tokens@.len() == 0 ==> from == start,
            tokens@.len() > 0 ==> command@.subrange(start as int, i as int) == joined(string_views(tokens@)) + " "@
                + command@.subrange(from as int, i as int),
            !command@.subrange(from as int, i as int).contains(' '),
            forall|k: int| 0 <= k < tokens@.len() ==> !(#[trigger] tokens@[k])@.contains(' '),
        decreases n - i,
    {
        let c = command.get_char(i);
        proof {
            reveal_strlit(" ");
            assert(command@.subrange(start as int, i + 1) == command@.subrange(start as int, i as int).push(c));
            assert(command@.subrange(from as int, i + 1) == command@.subrange(from as int, i as int).push(c));
        }
        if c == ' ' {
            let piece = command.substring_char(from, i).to_owned();
            let ghost before = tokens@;
            tokens.push(piece);
            proof {
                assert(string_views(tokens@) =~= string_views(before).push(piece@));
                if before.len() == 0 {
                    assert(string_views(tokens@).len() == 1);
                    assert(joined(string_views(tokens@)) == piece@);
                } else {
                    assert(string_views(tokens@).drop_last() == string_views(before));
                }
                assert(command@.subrange(start as int, i + 1) =~= joined(string_views(tokens@)) + " "@
                    + command@.subrange(i + 1, i + 1));
                assert(command@.subrange(i + 1, i + 1) =~= Seq::<char>::empty());
            }
            from = i + 1;
        } else {
            proof {
                let seg = command@.subrange(from as int, i + 1);
                if seg.contains(' ') {
                    let k = choose|k: int| 0 <= k < seg.len() && #[trigger] seg[k] == ' ';
                    assert(command@.subrange(from as int, i as int)[k] == ' ');
                }
                if tokens@.len() > 0 {
                    assert(command@.subrange(start as int, i + 1) =~= joined(string_views(tokens@)) + " "@
                        + command@.subrange(from as int, i + 1));
                }
            }
        }
        i = i + 1;
    }
    let last = command.substring_char(from, n).to_owned();
    proof {
        assert(command@.subrange(start as int, n as int) == body);
    }
    if tokens.len() == 0 {
        proof {
            assert(string_views(Seq::<String>::empty()) =~= Seq::<Seq<char>>::empty());
            assert(seq![last@] + Seq::<Seq<char>>::empty() =~= seq![last@]);
            assert(joined(seq![last@]) == last@);
        }
        return (last, Vec::new());
    }
    let ghost all = string_views(tokens@).push(last@);
    proof {
        assert(all.drop_last() == string_views(tokens@));
        assert(all.last() == last@);
        assert(last@ == command@.subrange(from as int, n as int));
    }
    let ghost before = tokens@;
    let keyword = tokens.remove(0);
    tokens.push(last);
    proof {
        assert(seq![keyword@] + string_views(tokens@) =~= all);
        assert forall|k: int| 0 <= k < tokens@.len() implies !(#[trigger] tokens@[k])@.contains(' ') by {
            if k + 1 < before.len() {
                assert(tokens@[k] == before[k + 1]);
            }
        }
        assert(keyword == before[0]);
    }
    (keyword, tokens)
}

} // verus!
