//! The intermediate tree language that expressions are translated into,
//! its model, the nesting levels that translation threads through, and the
//! fragments (data that lives outside the code) that translation produces.
use vstd::prelude::*;

pub mod translate;

verus! {

/// A code location, named by a number.
#[derive(Clone, Copy, PartialEq, Eq, Structural, Debug)]
pub struct Label {
    pub id: u64,
}

/// A register, named by a number.
#[derive(Clone, Copy, PartialEq, Eq, Structural, Debug)]
pub struct Temp {
    pub id: u64,
}

/// The number of the register that holds the frame pointer.
pub const FRAME_POINTER: u64 = 0;

/// Labels below this number name the runtime's functions; translation creates the others.
pub const FIRST_FRESH_LABEL: u64 = 16;

/// Temps below this number are reserved; translation creates the others.
pub const FIRST_FRESH_TEMP: u64 = 1;

#[allow(non_camel_case_types)]
#[derive(Clone, Copy, PartialEq, Eq, Structural, Debug)]
pub enum RelOp {
    EQ,
    NE,
    LT,
    GT,
    LE,
    GE,
}

#[allow(non_camel_case_types)]
#[derive(PartialEq, Debug)]
pub enum Exp {
    CONST(i64),
    NAME(Label),
    TEMP(Temp),
    MEM(Box<Exp>),
    CALL(Box<Exp>, Vec<Exp>),
    ESEQ(Box<Stm>, Box<Exp>),
}

#[allow(non_camel_case_types)]
#[derive(PartialEq, Debug)]
pub enum Stm {
    MOVE(Box<Exp>, Box<Exp>),
    EXP(Box<Exp>),
    JUMP(Exp, Vec<Label>),
    CJUMP(RelOp, Exp, Exp, Label, Label),
    SEQ(Box<Stm>, Box<Stm>),
    LABEL(Label),
}

/// The model of a tree expression: argument lists and jump targets as sequences.
pub enum SpecExp {
    Const(i64),
    Name(Label),
    Temp(Temp),
    Mem(Box<SpecExp>),
    Call(Box<SpecExp>, Seq<SpecExp>),
    Eseq(Box<SpecStm>, Box<SpecExp>),
}

/// The model of a tree statement.
pub enum SpecStm {
    Move(Box<SpecExp>, Box<SpecExp>),
    Exp(Box<SpecExp>),
    Jump(SpecExp, Seq<Label>),
    CJump(RelOp, SpecExp, SpecExp, Label, Label),
    Sequence(Box<SpecStm>, Box<SpecStm>),
    Label(Label),
}

impl Exp {
    pub open spec fn view(&self) -> SpecExp
        decreases self,
    {
        match self {
            Exp::CONST(i) => SpecExp::Const(*i),
            Exp::NAME(l) => SpecExp::Name(*l),
            Exp::TEMP(t) => SpecExp::Temp(*t),
            Exp::MEM(e) => SpecExp::Mem(Box::new((**e).view())),
            Exp::CALL(f, args) => SpecExp::Call(Box::new((**f).view()), exps_view(args@)),
            Exp::ESEQ(s, e) => SpecExp::Eseq(Box::new((**s).view()), Box::new((**e).view())),
        }
    }
}

impl Stm {
    pub open spec fn view(&self) -> SpecStm
        decreases self,
    {
        match self {
            Stm::MOVE(d, e) => SpecStm::Move(Box::new((**d).view()), Box::new((**e).view())),
            Stm::EXP(e) => SpecStm::Exp(Box::new((**e).view())),
            Stm::JUMP(e, ls) => SpecStm::Jump(e.view(), ls@),
            Stm::CJUMP(op, a, b, t, f) => SpecStm::CJump(*op, a.view(), b.view(), *t, *f),
            Stm::SEQ(a, b) => SpecStm::Sequence(Box::new((**a).view()), Box::new((**b).view())),
            Stm::LABEL(l) => SpecStm::Label(*l),
        }
    }
}

pub open spec fn exps_view(s: Seq<Exp>) -> Seq<SpecExp>
    decreases s,
{
    if s.len() == 0 {
        Seq::empty()
    } else {
        exps_view(s.subrange(0, s.len() - 1)).push(s[s.len() - 1].view())
    }
}

pub open spec fn stms_view(s: Seq<Stm>) -> Seq<SpecStm> {
    s.map_values(|x: Stm| x@)
}

pub proof fn lemma_exps_view(s: Seq<Exp>)
    ensures
        exps_view(s).len() == s.len(),
        forall|i: int| 0 <= i < s.len() ==> #[trigger] exps_view(s)[i] == s[i]@,
    decreases s.len(),
{
    if s.len() > 0 {
        lemma_exps_view(s.subrange(0, s.len() - 1));
    }
}

/// A list of statements run one after another, as right-nested `SEQ`s
/// (the empty list does nothing).
pub open spec fn seq_view(s: Seq<SpecStm>) -> SpecStm
    decreases s.len(),
{
    if s.len() == 0 {
        SpecStm::Exp(Box::new(SpecExp::Const(0)))
    } else if s.len() == 1 {
        s[0]
    } else {
        SpecStm::Sequence(Box::new(s[0]), Box::new(seq_view(s.drop_first())))
    }
}

proof fn lemma_seq_view_join(p: Seq<SpecStm>, a: SpecStm, b: SpecStm)
    ensures
        seq_view(p.push(a).push(b)) == seq_view(p.push(SpecStm::Sequence(Box::new(a), Box::new(b)))),
    decreases p.len(),
{
    let x = SpecStm::Sequence(Box::new(a), Box::new(b));
    if p.len() == 0 {
        assert(p.push(a).push(b).drop_first() =~= seq![b]);
        assert(seq_view(seq![b]) == b);
        assert(p.push(a).push(b)[0] == a);
        assert(p.push(x) =~= seq![x]);
    } else {
        lemma_seq_view_join(p.drop_first(), a, b);
        assert(p.push(a).push(b).drop_first() =~= p.drop_first().push(a).push(b));
        assert(p.push(x).drop_first() =~= p.drop_first().push(x));
        assert(p.push(a).push(b)[0] == p[0]);
        assert(p.push(x)[0] == p[0]);
    }
}

/// Joins statements into one, run in order.
pub fn seq(stms: Vec<Stm>) -> (r: Stm)
    ensures
        r@ == seq_view(stms_view(stms@)),
{
    let ghost all = stms_view(stms@);
    let mut rest = stms;
    match rest.pop() {
        None => {
            assert(all =~= Seq::<SpecStm>::empty());
            let c = Exp::CONST(0);
            assert(c@ == SpecExp::Const(0));
            let r = Stm::EXP(Box::new(c));
            assert(r@ == seq_view(all));
            r
        },
        Some(last) => {
            let mut acc = last;
            assert(all =~= stms_view(rest@).push(acc@));
            while rest.len() > 0
                invariant
                    seq_view(all) == seq_view(stms_view(rest@).push(acc@)),
                decreases rest.len(),
            {
                let ghost before = rest@;
                let x = rest.pop().unwrap();
                proof {
                    assert(stms_view(before) =~= stms_view(rest@).push(x@));
                    lemma_seq_view_join(stms_view(rest@), x@, acc@);
                }
                acc = Stm::SEQ(Box::new(x), Box::new(acc));
                assert(seq_view(all) == seq_view(stms_view(rest@).push(acc@)));
            }
            assert(stms_view(rest@) =~= Seq::<SpecStm>::empty());
            assert(stms_view(rest@).push(acc@) =~= seq![acc@]);
            assert(seq_view(seq![acc@]) == acc@);
            assert(acc@ == seq_view(all));
            acc
        },
    }
}

/// The labels that an expression's code defines (by `LABEL` statements), in order.
pub open spec fn exp_labels(e: SpecExp) -> Seq<Label>
    decreases e,
{
    match e {
        SpecExp::Mem(x) => exp_labels(*x),
        SpecExp::Call(f, args) => exp_labels(*f) + exps_labels(args),
        SpecExp::Eseq(st, x) => stm_labels(*st) + exp_labels(*x),
        _ => Seq::empty(),
    }
}

/// The labels that a statement defines, in order.
pub open spec fn stm_labels(st: SpecStm) -> Seq<Label>
    decreases st,
{
    match st {
        SpecStm::Move(a, b) => exp_labels(*a) + exp_labels(*b),
        SpecStm::Exp(x) => exp_labels(*x),
        SpecStm::Jump(x, _) => exp_labels(x),
        SpecStm::CJump(_, a, b, _, _) => exp_labels(a) + exp_labels(b),
        SpecStm::Sequence(a, b) => stm_labels(*a) + stm_labels(*b),
        SpecStm::Label(l) => seq![l],
    }
}

pub open spec fn exps_labels(s: Seq<SpecExp>) -> Seq<Label>
    decreases s,
{
    if s.len() == 0 {
        Seq::empty()
    } else {
        exp_labels(s[0]) + exps_labels(s.subrange(1, s.len() as int))
    }
}

pub open spec fn stms_labels(s: Seq<SpecStm>) -> Seq<Label>
    decreases s,
{
    if s.len() == 0 {
        Seq::empty()
    } else {
        stm_labels(s[0]) + stms_labels(s.subrange(1, s.len() as int))
    }
}

/// Joining statements defines the labels that they define, in order.
pub proof fn lemma_seq_view_labels(s: Seq<SpecStm>)
    ensures
        stm_labels(seq_view(s)) == stms_labels(s),
    decreases s.len(),
{
    if s.len() == 1 {
        assert(s.subrange(1, 1) =~= Seq::<SpecStm>::empty());
        assert(stm_labels(s[0]) + Seq::<Label>::empty() =~= stm_labels(s[0]));
        assert(stms_labels(s.subrange(1, 1)) =~= Seq::<Label>::empty());
        assert(seq_view(s) == s[0]);
        assert(stms_labels(s) == stm_labels(s[0]));
    } else if s.len() > 1 {
        lemma_seq_view_labels(s.drop_first());
        assert(s.drop_first() =~= s.subrange(1, s.len() as int));
        assert(seq_view(s) == SpecStm::Sequence(Box::new(s[0]), Box::new(seq_view(s.drop_first()))));
        assert(stm_labels(seq_view(s)) == stm_labels(s[0]) + stm_labels(seq_view(s.drop_first())));
        assert(stms_labels(s) == stm_labels(s[0]) + stms_labels(s.subrange(1, s.len() as int)));
    } else {
        assert(exp_labels(SpecExp::Const(0)) =~= Seq::<Label>::empty());
        assert(stm_labels(SpecStm::Exp(Box::new(SpecExp::Const(0)))) =~= Seq::<Label>::empty());
        assert(seq_view(s) == SpecStm::Exp(Box::new(SpecExp::Const(0))));
        assert(stms_labels(s) =~= Seq::<Label>::empty());
    }
}

/// Whether an expression's code reads or writes the temp `t`.
pub open spec fn exp_uses(e: SpecExp, t: Temp) -> bool
    decreases e,
{
    match e {
        SpecExp::Temp(x) => x == t,
        SpecExp::Mem(x) => exp_uses(*x, t),
        SpecExp::Call(f, args) => exp_uses(*f, t) || exps_uses(args, t),
        SpecExp::Eseq(st, x) => stm_uses(*st, t) || exp_uses(*x, t),
        _ => false,
    }
}

/// Whether a statement reads or writes the temp `t`.
pub open spec fn stm_uses(st: SpecStm, t: Temp) -> bool
    decreases st,
{
    match st {
        SpecStm::Move(a, b) => exp_uses(*a, t) || exp_uses(*b, t),
        SpecStm::Exp(x) => exp_uses(*x, t),
        SpecStm::Jump(x, _) => exp_uses(x, t),
        SpecStm::CJump(_, a, b, _, _) => exp_uses(a, t) || exp_uses(b, t),
        SpecStm::Sequence(a, b) => stm_uses(*a, t) || stm_uses(*b, t),
        SpecStm::Label(_) => false,
    }
}

pub open spec fn exps_uses(s: Seq<SpecExp>, t: Temp) -> bool
    decreases s,
{
    if s.len() == 0 {
        false
    } else {
        exp_uses(s[0], t) || exps_uses(s.subrange(1, s.len() as int), t)
    }
}

pub open spec fn stms_uses(s: Seq<SpecStm>, t: Temp) -> bool
    decreases s,
{
    if s.len() == 0 {
        false
    } else {
        stm_uses(s[0], t) || stms_uses(s.subrange(1, s.len() as int), t)
    }
}

/// Joining statements uses the temps that they use.
pub proof fn lemma_seq_view_uses(s: Seq<SpecStm>, t: Temp)
    ensures
        stm_uses(seq_view(s), t) == stms_uses(s, t),
    decreases s.len(),
{
    if s.len() == 1 {
        assert(stms_uses(s.subrange(1, 1), t) == false);
        assert(seq_view(s) == s[0]);
    } else if s.len() > 1 {
        lemma_seq_view_uses(s.drop_first(), t);
        assert(s.drop_first() =~= s.subrange(1, s.len() as int));
        assert(seq_view(s) == SpecStm::Sequence(Box::new(s[0]), Box::new(seq_view(s.drop_first()))));
        assert(stm_uses(seq_view(s), t) == (stm_uses(s[0], t) || stm_uses(seq_view(s.drop_first()), t)));
        assert(stms_uses(s, t) == (stm_uses(s[0], t) || stms_uses(s.subrange(1, s.len() as int), t)));
    } else {
        assert(seq_view(s) == SpecStm::Exp(Box::new(SpecExp::Const(0))));
        assert(!exp_uses(SpecExp::Const(0), t));
        assert(!stm_uses(SpecStm::Exp(Box::new(SpecExp::Const(0))), t));
    }
}

/// Data placed outside the code: a string constant under its label.
#[derive(PartialEq, Debug)]
pub enum Fragment {
    ConstString(Label, String),
}

/// The nesting depth of the function being translated, and the next unused
/// label and temp numbers.
#[derive(Clone, Copy, PartialEq, Eq, Structural, Debug)]
pub struct Level {
    pub nesting_depth: i64,
    pub next_label: u64,
    pub next_temp: u64,
}

impl Level {
    /// The level of the program's main body.
    pub fn outermost() -> (r: Level)
        ensures
            r.nesting_depth == 0,
            r.next_label == FIRST_FRESH_LABEL,
            r.next_temp == FIRST_FRESH_TEMP,
    {
        Level { nesting_depth: 0, next_label: FIRST_FRESH_LABEL, next_temp: FIRST_FRESH_TEMP }
    }
}

/// A label not handed out before at this level: the next number.
pub fn newlabel(level: &mut Level) -> (r: Label)
    requires
        old(level).next_label < u64::MAX,
    ensures
        r.id == old(level).next_label,
        *final(level) == (Level { next_label: (old(level).next_label + 1) as u64, ..*old(level) }),
{
    let l = Label { id: level.next_label };
    level.next_label = level.next_label + 1;
    l
}

/// A temp not handed out before at this level: the next number.
pub fn newtemp(level: &mut Level) -> (r: Temp)
    requires
        old(level).next_temp < u64::MAX,
    ensures
        r.id == old(level).next_temp,
        *final(level) == (Level { next_temp: (old(level).next_temp + 1) as u64, ..*old(level) }),
{
    let t = Temp { id: level.next_temp };
    level.next_temp = level.next_temp + 1;
    t
}

} // verus!
