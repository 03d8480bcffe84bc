use vstd::prelude::*;

verus! {

/// What a task is, mathematically.
pub struct TodoView {
    pub id: u32,
    pub title: Seq<char>,
    pub completed: bool,
}

/// One task: its id, its title and whether it is done.
pub struct Todo {
    pub id: u32,
    pub title: String,
    pub completed: bool,
}

impl View for Todo {
    type V = TodoView;

    open spec fn view(&self) -> TodoView {
        TodoView { id: self.id, title: self.title@, completed: self.completed }
    }
}

impl Todo {
    /// A task that is not done yet.
    pub fn new(id: u32, title: &str) -> (r: Todo)
        ensures
            r@ == (TodoView { id, title: title@, completed: false }),
    {
        Todo { id, title: title.to_string(), completed: false }
    }
}

/// The character of a decimal digit.
pub open spec fn digit_char(d: int) -> char {
    if d == 0 { '0' } else if d == 1 { '1' } else if d == 2 { '2' } else if d == 3 { '3' }
    else if d == 4 { '4' } else if d == 5 { '5' } else if d == 6 { '6' } else if d == 7 { '7' }
    else if d == 8 { '8' } else { '9' }
}

/// `n` written in decimal, without leading zeros.
pub open spec fn decimal(n: nat) -> Seq<char>
    decreases n,
{
    if n < 10 {
        seq![digit_char(n as int)]
    } else {
        decimal(n / 10).push(digit_char((n % 10) as int))
    }
}

/// How a task is shown: `id: [X] title` when done, `id: [ ] title` when not.
pub open spec fn line_of(t: TodoView) -> Seq<char> {
    decimal(t.id as nat) + seq![':', ' ', '['] + seq![if t.completed { 'X' } else { ' ' }]
        + seq![']', ' '] + t.title
}

fn digit_str(d: u32) -> (r: &'static str)
    requires
        d < 10,
    ensures
        r@ == seq![digit_char(d as int)],
{
    proof {
        reveal_strlit("0");
        reveal_strlit("1");
        reveal_strlit("2");
        reveal_strlit("3");
        reveal_strlit("4");
        reveal_strlit("5");
        reveal_strlit("6");
        reveal_strlit("7");
        reveal_strlit("8");
        reveal_strlit("9");
    }
    let r = if d == 0 { "0" } else if d == 1 { "1" } else if d == 2 { "2" } else if d == 3 { "3" }
    else if d == 4 { "4" } else if d == 5 { "5" } else if d == 6 { "6" } else if d == 7 { "7" }
    else if d == 8 { "8" } else { "9" };
    assert(r@ =~= seq![digit_char(d as int)]);
    r
}

/// Appends `n` in decimal to `out`.
fn push_decimal(out: &mut String, n: u32)
    ensures
        final(out)@ == old(out)@ + decimal(n as nat),
    decreases n,
{
    if n < 10 {
        out.append(digit_str(n));
    } else {
        push_decimal(out, n / 10);
        out.append(digit_str(n % 10));
        assert(old(out)@ + decimal(n as nat) =~= old(out)@ + decimal((n / 10) as nat) + seq![digit_char((n % 10) as int)]);
    }
}

impl Todo {
    /// The task as shown in a listing: `id: [X] title` when done,
    /// `id: [ ] title` when not.
    pub fn line(&self) -> (r: String)
        ensures
            r@ == line_of(self@),
    {
        proof {
            reveal_strlit(": [");
            reveal_strlit("X");
            reveal_strlit(" ");
            reveal_strlit("] ");
        }
        let mut r = String::new();
        push_decimal(&mut r, self.id);
        r.append(": [");
        r.append(if self.completed { "X" } else { " " });
        r.append("] ");
        r.append(self.title.as_str());
        assert(r@ =~= line_of(self@));
        r
    }
}

} // verus!
