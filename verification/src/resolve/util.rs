use vstd::prelude::*;

verus! {

/// A result whose error is one message.
pub type MsgResult<T> = Result<T, String>;

/// A result whose error is a list of messages.
pub type MsgsResult<T> = Result<T, Vec<String>>;

/// The successful values of a list of results, in order.
pub open spec fn ok_values<T, E>(rs: Seq<Result<T, E>>) -> Seq<T>
    decreases rs.len(),
{
    if rs.len() == 0 {
        Seq::empty()
    } else {
        let prev = ok_values(rs.drop_last());
        match rs.last() {
            Ok(t) => prev.push(t),
            Err(_) => prev,
        }
    }
}

/// The errors of a list of results, in order.
pub open spec fn err_values<T, E>(rs: Seq<Result<T, E>>) -> Seq<E>
    decreases rs.len(),
{
    if rs.len() == 0 {
        Seq::empty()
    } else {
        let prev = err_values(rs.drop_last());
        match rs.last() {
            Ok(_) => prev,
            Err(e) => prev.push(e),
        }
    }
}

/// The messages of a list of message lists, concatenated in order.
pub open spec fn flatten_msgs(ms: Seq<Vec<String>>) -> Seq<String>
    decreases ms.len(),
{
    if ms.len() == 0 {
        Seq::empty()
    } else {
        flatten_msgs(ms.drop_last()) + ms.last()@
    }
}

/// Turns a one-message error into a list of messages.
pub trait ToMsgsResult<T>: Sized {
    fn to_msg_vec(self) -> MsgsResult<T>;
}

impl<T> ToMsgsResult<T> for MsgResult<T> {
    fn to_msg_vec(self) -> (r: MsgsResult<T>)
        ensures
            match (self, r) {
                (Ok(a), Ok(b)) => a == b,
                (Err(e), Err(es)) => es@ == seq![e],
                _ => false,
            },
    {
        match self {
            Ok(t) => Ok(t),
            Err(e) => Err(vec![e]),
        }
    }
}

/// Collects a list of results: all the values if nothing failed, else all
/// the messages.
pub trait CombineMsgs<T>: Sized {
    fn combine_msgs(self) -> MsgsResult<T>;
}

impl<T> CombineMsgs<Vec<T>> for Vec<MsgResult<T>> {
    fn combine_msgs(self) -> (r: MsgsResult<Vec<T>>)
        ensures
            match r {
                Ok(ts) => err_values(self@).len() == 0 && ts@ == ok_values(self@),
                Err(ms) => err_values(self@).len() > 0 && ms@ == err_values(self@),
            },
    {
        let ghost all = self@;
        let mut msgs: Vec<String> = Vec::new();
        let mut ts: Vec<T> = Vec::new();
        for msg in it: self
            invariant
                it.seq() == all,
                ts@ == ok_values(all.take(it.index() as int)),
                msgs@ == err_values(all.take(it.index() as int)),
        {
            assert(all.take(it.index() + 1).drop_last() == all.take(it.index() as int));
            match msg {
                Ok(t) => ts.push(t),
                Err(e) => msgs.push(e),
            }
        }
        assert(all.take(all.len() as int) == all);
        if msgs.len() == 0 {
            Ok(ts)
        } else {
            Err(msgs)
        }
    }
}

impl<T> CombineMsgs<Vec<T>> for Vec<MsgsResult<T>> {
    fn combine_msgs(self) -> (r: MsgsResult<Vec<T>>)
        ensures
            match r {
                Ok(ts) => flatten_msgs(err_values(self@)).len() == 0 && ts@ == ok_values(self@),
                Err(ms) => flatten_msgs(err_values(self@)).len() > 0 && ms@ == flatten_msgs(err_values(self@)),
            },
    {
        let ghost all = self@;
        let mut msgs: Vec<String> = Vec::new();
        let mut ts: Vec<T> = Vec::new();
        for msg in it: self
            invariant
                it.seq() == all,
                ts@ == ok_values(all.take(it.index() as int)),
                msgs@ == flatten_msgs(err_values(all.take(it.index() as int))),
        {
            assert(all.take(it.index() + 1).drop_last() == all.take(it.index() as int));
            match msg {
                Ok(t) => ts.push(t),
                Err(e) => {
                    let ghost prev = err_values(all.take(it.index() as int));
                    assert(err_values(all.take(it.index() + 1)) == prev.push(e));
                    assert(prev.push(e).drop_last() == prev);
                    let mut e = e;
                    msgs.append(&mut e);
                },
            }
        }
        assert(all.take(all.len() as int) == all);
        if msgs.len() == 0 {
            Ok(ts)
        } else {
            Err(msgs)
        }
    }
}

} // verus!

verus! {

/// The decimal digit character of `d` (for `d` below ten).
pub open spec fn digit_char(d: nat) -> char {
    if d == 0 { '0' } else if d == 1 { '1' } else if d == 2 { '2' } else if d == 3 { '3' }
    else if d == 4 { '4' } else if d == 5 { '5' } else if d == 6 { '6' } else if d == 7 { '7' }
    else if d == 8 { '8' } else { '9' }
}

/// The decimal notation of `n`, without leading zeros.
pub open spec fn decimal(n: nat) -> Seq<char>
    decreases n,
{
    if n < 10 {
        seq![digit_char(n)]
    } else {
        decimal(n / 10).push(digit_char(n % 10))
    }
}

fn digit_str(d: usize) -> (r: &'static str)
    requires
        d < 10,
    ensures
        r@ == seq![digit_char(d as nat)],
{
    proof {
        reveal_strlit("0");
        reveal_strlit("1");
        reveal_strlit("2");
        reveal_strlit("3");
        reveal_strlit("4");
        reveal_strlit("5");
        reveal_strlit("6");
        reveal_strlit("7");
        reveal_strlit("8");
        reveal_strlit("9");
    }
    if d == 0 { "0" } else if d == 1 { "1" } else if d == 2 { "2" } else if d == 3 { "3" }
    else if d == 4 { "4" } else if d == 5 { "5" } else if d == 6 { "6" } else if d == 7 { "7" }
    else if d == 8 { "8" } else { "9" }
}

/// `n` written in decimal.
pub fn usize_to_string(n: usize) -> (r: String)
    ensures
        r@ == decimal(n as nat),
    decreases n,
{
    if n < 10 {
        String::from_str(digit_str(n))
    } else {
        let mut r = usize_to_string(n / 10);
        r.append(digit_str(n % 10));
        r
    }
}

} // verus!
