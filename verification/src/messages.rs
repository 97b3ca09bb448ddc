//! `Messages<M>`: the messages gathered while evaluating responses.
use vstd::prelude::*;
use crate::text::{decimal, u64_to_string};

verus! {

/// `lines` joined with a newline between each two.
pub open spec fn join_lines(lines: Seq<Seq<char>>) -> Seq<char>
    decreases lines.len(),
{
    if lines.len() == 0 {
        Seq::empty()
    } else if lines.len() == 1 {
        lines[0]
    } else {
        join_lines(lines.drop_last()) + seq!['\n'] + lines.last()
    }
}

/// How many messages are shown before the rest is summed up.
pub open spec fn shown() -> nat {
    3
}

/// The text that displays messages: the first three, one per line, then a line
/// `... and N more` when there are more.
pub open spec fn messages_text(lines: Seq<Seq<char>>) -> Seq<char> {
    if lines.len() <= shown() {
        join_lines(lines)
    } else {
        join_lines(lines.take(shown() as int)) + seq!['\n'] + "... and "@
            + decimal((lines.len() - shown()) as nat) + " more"@
    }
}

/// A message with a text to show.
pub trait MessageText {
    /// The text of the message.
    spec fn text_view(&self) -> Seq<char>;

    /// The text of the message, as it is displayed.
    fn text(&self) -> (res: String)
        ensures
            res@ == self.text_view(),
    ;
}

impl MessageText for String {
    open spec fn text_view(&self) -> Seq<char> {
        self@
    }

    fn text(&self) -> (res: String) {
        crate::text::owned(self.as_str())
    }
}

/// The texts of `msgs`, in order.
pub open spec fn texts_of<M: MessageText>(msgs: Seq<M>) -> Seq<Seq<char>> {
    msgs.map_values(|m: M| m.text_view())
}

/// Messages, in the order they were pushed.
#[derive(Debug, Clone, PartialEq, Eq)]
pub struct Messages<M>(Vec<M>);

impl<M> View for Messages<M> {
    type V = Seq<M>;

    closed spec fn view(&self) -> Seq<M> {
        self.0@
    }
}

impl<M> Messages<M> {
    /// No message.
    pub fn new() -> (res: Self)
        ensures
            res@ == Seq::<M>::empty(),
    {
        Messages(Vec::new())
    }

    /// The messages of `v`, in order.
    pub fn from_vec(v: Vec<M>) -> (res: Self)
        ensures
            res@ == v@,
    {
        Messages(v)
    }

    /// The messages as a slice.
    pub fn as_slice(&self) -> (res: &[M])
        ensures
            res@ == self@,
    {
        self.0.as_slice()
    }

    /// The messages as a vector.
    pub fn to_vec(self) -> (res: Vec<M>)
        ensures
            res@ == self@,
    {
        self.0
    }

    /// The number of messages.
    pub fn len(&self) -> (n: usize)
        ensures
            n == self@.len(),
    {
        self.0.len()
    }

    /// Whether there is no message.
    pub fn is_empty(&self) -> (b: bool)
        ensures
            b == (self@.len() == 0),
    {
        self.0.len() == 0
    }

    /// The value of `message` when it is `Ok`; when it is `Err`, the error is pushed.
    pub fn push_unwrap<T>(&mut self, message: Result<T, M>) -> (res: Option<T>)
        ensures
            match message {
                Ok(t) => res == Some(t) && final(self)@ == old(self)@,
                Err(m) => res is None && final(self)@ == old(self)@.push(m),
            },
    {
        match message {
            Ok(t) => Some(t),
            Err(m) => {
                self.0.push(m);
                None
            },
        }
    }

    /// Pushes `message`.
    pub fn push_err(&mut self, message: M)
        ensures
            final(self)@ == old(self)@.push(message),
    {
        self.push_unwrap::<()>(Err(message));
    }

    /// Pushes `message`; always `false`, the verdict of a check that produced it.
    pub fn push_unacceptable(&mut self, message: M) -> (res: bool)
        ensures
            final(self)@ == old(self)@.push(message),
            !res,
    {
        self.push_err(message);
        false
    }

    /// Pushes every message of `other`, in order.
    pub fn extend(&mut self, other: Vec<M>)
        ensures
            final(self)@ == old(self)@ + other@,
    {
        let mut other = other;
        self.0.append(&mut other);
    }
}

/// The text of `lines`, joined as messages are displayed.
fn lines_text(lines: &Vec<&str>) -> (res: String)
    ensures
        res@ == messages_text(lines@.map_values(|l: &str| l@)),
{
    let ghost ls = lines@.map_values(|l: &str| l@);
    proof {
        reveal_strlit("\n");
    }
    let m = lines.len();
    let k = if m < 3 { m } else { 3 };
    let mut out = String::new();
    let mut i: usize = 0;
    while i < k
        invariant
            k <= m == lines@.len(),
            k == (if m < 3 { m } else { 3 }),
            ls == lines@.map_values(|l: &str| l@),
            i <= k,
            out@ == join_lines(ls.take(i as int)),
        decreases k - i,
    {
        proof {
            reveal_strlit("\n");
            assert(ls.take(i + 1).drop_last() =~= ls.take(i as int));
            assert(ls.take(i + 1).last() == lines@[i as int]@);
        }
        if i > 0 {
            out.append("\n");
        }
        out.append(lines[i]);
        proof {
            if i == 0 {
                assert(out@ =~= lines@[0]@);
            } else {
                assert(out@ =~= join_lines(ls.take(i as int)) + seq!['\n'] + lines@[i as int]@);
            }
        }
        i = i + 1;
    }
    if m > 3 {
        proof {
            reveal_strlit("\n");
            assert(ls.take(i as int) =~= ls.take(3));
        }
        out.append("\n");
        out.append("... and ");
        let rest = u64_to_string((m - 3) as u64);
        out.append(rest.as_str());
        out.append(" more");
    } else {
        proof {
            assert(ls.take(i as int) =~= ls);
        }
    }
    out
}

impl<'a> Messages<&'a str> {
    /// The text that displays the messages: the first three, one per line, then
    /// `... and N more` when there are more.
    pub fn to_string(&self) -> (res: String)
        ensures
            res@ == messages_text(self@.map_values(|l: &str| l@)),
    {
        lines_text(&self.0)
    }
}

impl Messages<String> {
    /// The text that displays the messages: the first three, one per line, then
    /// `... and N more` when there are more.
    pub fn to_string(&self) -> (res: String)
        ensures
            res@ == messages_text(self@.map_values(|l: String| l@)),
    {
        let mut v: Vec<&str> = Vec::new();
        let mut i: usize = 0;
        while i < self.0.len()
            invariant
                i <= self.0@.len(),
                v@.len() == i,
                forall|j: int| 0 <= j < i ==> #[trigger] v@[j]@ == self.0@[j]@,
            decreases self.0@.len() - i,
        {
            v.push(self.0[i].as_str());
            i = i + 1;
        }
        proof {
            assert(v@.map_values(|l: &str| l@) =~= self.0@.map_values(|l: String| l@));
        }
        lines_text(&v)
    }
}

impl<M: MessageText> Messages<M> {
    /// The text of each message, in order.
    pub fn texts(&self) -> (res: Vec<String>)
        ensures
            res@.map_values(|s: String| s@) == texts_of(self@),
    {
        let mut res: Vec<String> = Vec::new();
        let mut i: usize = 0;
        while i < self.0.len()
            invariant
                i <= self.0@.len(),
                res@.len() == i,
                forall|j: int| 0 <= j < i ==> #[trigger] res@[j]@ == self.0@[j].text_view(),
            decreases self.0@.len() - i,
        {
            res.push(self.0[i].text());
            i = i + 1;
        }
        proof {
            assert(res@.map_values(|s: String| s@) =~= texts_of(self@));
        }
        res
    }
}

impl<M> From<Vec<M>> for Messages<M> {
    /// The messages of `value`, in its order.
    fn from(value: Vec<M>) -> (res: Self)
        ensures
            res@ == value@,
    {
        Messages(value)
    }
}

impl<M> vstd::std_specs::convert::FromSpecImpl<Vec<M>> for Messages<M> {
    open spec fn obeys_from_spec() -> bool {
        true
    }

    closed spec fn from_spec(v: Vec<M>) -> Self {
        Messages(v)
    }
}

} // verus!
