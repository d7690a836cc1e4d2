//! The election token as it travels between ecoms.

use vstd::prelude::*;
use vstd::string::*;
use crate::text::{decimal, fields, parse_usize, parse_usize_spec, split_fields, texts, usize_to_string};

verus! {

/// The numbers among `parts`, in order; a part that is no number is skipped.
pub open spec fn election_ids(parts: Seq<Seq<char>>) -> Seq<usize>
    decreases parts.len(),
{
    if parts.len() == 0 {
        Seq::empty()
    } else {
        let head = election_ids(parts.drop_last());
        match parse_usize_spec(parts.last()) {
            Some(id) => head.push(id),
            None => head,
        }
    }
}

/// Each of `visited` in decimal, followed by a slash.
pub open spec fn slashed(visited: Seq<usize>) -> Seq<char>
    decreases visited.len(),
{
    if visited.len() == 0 {
        Seq::empty()
    } else {
        slashed(visited.drop_last()) + decimal(visited.last() as nat) + seq!['/']
    }
}

/// The election record that names the ecoms `visited` and then `my_id`.
pub open spec fn election_text(visited: Seq<usize>, my_id: Seq<char>) -> Seq<char> {
    "ELECTION,"@ + slashed(visited) + my_id + seq!['\n']
}

/// The ids that an election token `<id1>/<id2>/…` names, in order. A part
/// that is no number is skipped.
pub fn vec_from_election_msg(msg: String) -> (ids: Vec<usize>)
    ensures
        ids@ == election_ids(fields(msg@, '/')),
{
    let parts = split_fields(msg.as_str(), '/');
    let ghost all = fields(msg@, '/');
    let n = parts.len();
    let mut ids: Vec<usize> = Vec::new();
    let mut i: usize = 0;
    assert(all.take(0) =~= Seq::<Seq<char>>::empty());
    while i < n
        invariant
            i <= n,
            n == parts@.len(),
            texts(parts@) == all,
            ids@ == election_ids(all.take(i as int)),
        decreases n - i,
    {
        assert(all.take(i + 1).drop_last() =~= all.take(i as int));
        assert(all.take(i + 1).last() == parts@[i as int]@);
        if let Some(id) = parse_usize(parts[i].as_str()) {
            ids.push(id);
        }
        i += 1;
    }
    assert(all.take(n as int) =~= all);
    ids
}

/// The election record, with its newline, for a token that has passed the
/// ecoms `visited` and now passes `my_id`.
pub fn election_from_vec(visited: Vec<usize>, my_id: String) -> (msg: String)
    ensures
        msg@ == election_text(visited@, my_id@),
{
    proof {
        reveal_strlit("\n");
    }
    let mut msg = String::from_str("ELECTION,");
    let n = visited.len();
    let mut i: usize = 0;
    assert(visited@.take(0) =~= Seq::<usize>::empty());
    assert(msg@ =~= "ELECTION,"@ + slashed(visited@.take(0)));
    while i < n
        invariant
            i <= n,
            n == visited@.len(),
            msg@ == "ELECTION,"@ + slashed(visited@.take(i as int)),
        decreases n - i,
    {
        assert(visited@.take(i + 1).drop_last() =~= visited@.take(i as int));
        let digits = usize_to_string(visited[i]);
        msg.append(digits.as_str());
        msg.append("/");
        proof {
            reveal_strlit("/");
        }
        assert("/"@ =~= seq!['/']);
        assert(msg@ =~= "ELECTION,"@ + slashed(visited@.take(i + 1)));
        i += 1;
    }
    assert(visited@.take(n as int) =~= visited@);
    msg.append(my_id.as_str());
    msg.append("\n");
    assert("\n"@ =~= seq!['\n']);
    msg
}

} // verus!
