use vstd::prelude::*;
use crate::ids::GameId;

verus! {

/// `s` with every space and colon turned into an underscore.
pub open spec fn safe_name(s: Seq<char>) -> Seq<char> {
    s.map_values(|c: char| if c == ' ' || c == ':' { '_' } else { c })
}

/// `s` ends with `t`.
pub open spec fn ends_with(s: Seq<char>, t: Seq<char>) -> bool {
    t.len() <= s.len() && s.subrange(s.len() - t.len(), s.len() as int) == t
}

/// Name of the file that keeps the history of `game`.
pub fn history_file_name(game: &GameId) -> (r: String)
    ensures
        r@ == safe_name(game@) + ".history.json"@,
{
    let s = game.as_str();
    let n = s.unicode_len();
    let mut out = String::new();
    let mut i: usize = 0;
    proof {
        reveal_strlit("_");
    }
    while i < n
        invariant
            n == s@.len(),
            s@ == game@,
            i <= n,
            out@ == safe_name(s@.subrange(0, i as int)),
        decreases n - i,
    {
        let c = s.get_char(i);
        let ghost before = out@;
        if c == ' ' || c == ':' {
            out = out.concat("_");
        } else {
            out = out.concat(s.substring_char(i, i + 1));
        }
        proof {
            reveal_strlit("_");
            assert(s@.subrange(i as int, i + 1) =~= seq![c]);
            assert(safe_name(s@.subrange(0, i + 1)) =~= safe_name(s@.subrange(0, i as int)).push(
                if c == ' ' || c == ':' { '_' } else { c },
            ));
            assert(out@ =~= before.push(if c == ' ' || c == ':' { '_' } else { c }));
        }
        i = i + 1;
    }
    assert(s@.subrange(0, n as int) == s@);
    out.concat(".history.json")
}

/// Directory of the history files under the data directory `data_dir`.
pub fn history_dir(data_dir: &str) -> (r: String)
    ensures
        r@ == data_dir@ + "/history_git"@,
{
    String::from_str(data_dir).concat("/history_git")
}

/// Path of the history file of `game` under the data directory `data_dir`.
pub fn history_path(data_dir: &str, game: &GameId) -> (r: String)
    ensures
        r@ == data_dir@ + "/history_git"@ + "/"@ + safe_name(game@) + ".history.json"@,
{
    let name = history_file_name(game);
    history_dir(data_dir).concat("/").concat(name.as_str())
}

/// The file called `file_name` holds a game history.
pub fn is_regular_history_file(file_name: &str) -> (r: bool)
    ensures
        r == ends_with(file_name@, ".history.json"@),
{
    let suffix = ".history.json";
    let n = file_name.unicode_len();
    let m = suffix.unicode_len();
    if m > n {
        return false;
    }
    let mut j: usize = 0;
    while j < m
        invariant
            n == file_name@.len(),
            m == suffix@.len(),
            suffix@ == ".history.json"@,
            m <= n,
            j <= m,
            file_name@.subrange(n - m, n - m + j) == suffix@.subrange(0, j as int),
        decreases m - j,
    {
        if file_name.get_char(n - m + j) != suffix.get_char(j) {
            proof {
                if ends_with(file_name@, suffix@) {
                    assert(file_name@.subrange(n - m, n as int)[j as int] == file_name@[n - m + j]);
                    assert(file_name@.subrange(n - m, n as int)[j as int] == suffix@[j as int]);
                }
            }
            return false;
        }
        proof {
            assert(file_name@.subrange(n - m, n - m + j + 1) == file_name@.subrange(n - m, n - m + j).push(
                file_name@[n - m + j],
            ));
            assert(suffix@.subrange(0, j + 1) == suffix@.subrange(0, j as int).push(suffix@[j as int]));
        }
        j = j + 1;
    }
    assert(suffix@.subrange(0, m as int) == suffix@);
    true
}

} // verus!
