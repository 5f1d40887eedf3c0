//! What the service is started with: where its database lies.

use vstd::prelude::*;
use vstd::string::StrSliceExecFns;

verus! {

/// The database that is used where none is named.
pub const DEFAULT_DB_URI: &'static str = "sqlite:db/quotes.db";

/// The database to use: the one named on the command line, else the one
/// named in the environment, else the default.
pub open spec fn chosen_db_uri(args_db_uri: Option<&str>, env_db_uri: Option<&str>) -> Seq<char> {
    match args_db_uri {
        Some(uri) => uri@,
        None => match env_db_uri {
            Some(uri) => uri@,
            None => DEFAULT_DB_URI@,
        },
    }
}

/// Chooses the database to use.
pub fn get_db_uri_from_args_or_env(args_db_uri: Option<&str>, env_db_uri: Option<&str>) -> (uri:
    String)
    ensures
        uri@ == chosen_db_uri(args_db_uri, env_db_uri),
{
    if let Some(uri) = args_db_uri {
        uri.to_owned()
    } else if let Some(uri) = env_db_uri {
        uri.to_owned()
    } else {
        DEFAULT_DB_URI.to_owned()
    }
}

/// The position of the last `c` in `s`, or -1 where there is none.
pub open spec fn last_position(s: Seq<char>, c: char) -> int
    decreases s.len(),
{
    if s.len() == 0 {
        -1
    } else if s.last() == c {
        s.len() - 1
    } else {
        last_position(s.drop_last(), c)
    }
}

/// The last `c` of `s` is where `last_position` says, and none follows it.
pub proof fn lemma_last_position(s: Seq<char>, c: char)
    ensures
        -1 <= last_position(s, c) < s.len(),
        last_position(s, c) >= 0 ==> s[last_position(s, c)] == c,
        forall|i: int| last_position(s, c) < i < s.len() ==> s[i] != c,
    decreases s.len(),
{
    if s.len() > 0 && s.last() != c {
        let front = s.drop_last();
        lemma_last_position(front, c);
        assert forall|i: int| last_position(s, c) < i < s.len() implies s[i] != c by {
            if i < front.len() {
                assert(front[i] == s[i]);
            }
        }
    }
}

/// The directory in which the database file lies: what stands between the
/// last colon of the address and the last slash after it. There is none
/// where the address has no colon, or no slash after it, or nothing between
/// the two.
pub open spec fn db_directory(uri: Seq<char>) -> Option<Seq<char>> {
    let colon = last_position(uri, ':');
    let path = uri.skip(colon + 1);
    let slash = last_position(path, '/');
    if colon < 0 || slash <= 0 {
        None
    } else {
        Some(path.take(slash))
    }
}

/// The position of the last `c` among the first `end` characters of `s`.
fn rfind_char(s: &str, end: usize, c: char) -> (r: Option<usize>)
    requires
        end <= s@.len(),
    ensures
        match r {
            Some(i) => i == last_position(s@.take(end as int), c),
            None => last_position(s@.take(end as int), c) == -1,
        },
{
    let mut i: usize = end;
    while i > 0
        invariant
            i <= end <= s@.len(),
            last_position(s@.take(end as int), c) == last_position(s@.take(i as int), c),
        decreases i,
    {
        let ghost prefix = s@.take(i as int);
        assert(prefix.drop_last() =~= s@.take(i as int - 1));
        assert(prefix.last() == s@[i as int - 1]);
        if s.get_char(i - 1) == c {
            return Some(i - 1);
        }
        i -= 1;
    }
    None
}

/// The position of the last `c` in `s` from the position `from` on, counted
/// from there.
fn rfind_char_from(s: &str, from: usize, c: char) -> (r: Option<usize>)
    requires
        from <= s@.len(),
    ensures
        match r {
            Some(i) => i == last_position(s@.skip(from as int), c) && from + i < s@.len(),
            None => last_position(s@.skip(from as int), c) == -1,
        },
{
    let n = s.unicode_len();
    let ghost tail = s@.skip(from as int);
    let mut i: usize = n;
    assert(tail.take(tail.len() as int) =~= tail);
    while i > from
        invariant
            from <= i <= n,
            n == s@.len(),
            tail == s@.skip(from as int),
            last_position(tail, c) == last_position(tail.take(i - from), c),
        decreases i,
    {
        let ghost prefix = tail.take(i - from);
        assert(prefix.drop_last() =~= tail.take(i - from - 1));
        assert(prefix.last() == s@[i as int - 1]);
        if s.get_char(i - 1) == c {
            return Some(i - 1 - from);
        }
        i -= 1;
    }
    None
}

/// The directory in which the database file of the address `db_uri` lies, if
/// the address names one.
pub fn db_directory_of(db_uri: &str) -> (dir: Option<String>)
    ensures
        match dir {
            Some(d) => db_directory(db_uri@) == Some(d@),
            None => db_directory(db_uri@) is None,
        },
{
    let n = db_uri.unicode_len();
    assert(db_uri@.take(n as int) =~= db_uri@);
    match rfind_char(db_uri, n, ':') {
        Some(colon) => {
            proof {
                lemma_last_position(db_uri@, ':');
            }
            let from = colon + 1;
            match rfind_char_from(db_uri, from, '/') {
                Some(slash) => {
                    if slash == 0 {
                        None
                    } else {
                        let dir = db_uri.substring_char(from, from + slash);
                        assert(dir@ =~= db_uri@.skip(from as int).take(slash as int));
                        Some(dir.to_owned())
                    }
                },
                None => None,
            }
        },
        None => None,
    }
}

} // verus!
