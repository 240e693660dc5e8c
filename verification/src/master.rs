//! The scheduler's bookkeeping: which worker enclaves ("slaves") are busy,
//! which users wait for them, and which sub-models each model is made of.

use vstd::prelude::*;
use crate::text::{split_char, split_seq, join_seq, str_eq, lemma_split_join};

verus! {

/// A worker enclave, known by its address.
pub struct Slave<'a> {
    pub busy_flag: bool,
    pub slave_ip: &'a str,
}

/// A user waiting for workers, with the sub-models still to be run.
pub struct User<'a> {
    pub sub_model: Vec<&'a str>,
    pub user_ip: &'a str,
}

/// The scheduler: a table of models (name, sub-model list, worker ports),
/// the users that wait and the workers it knows.
pub struct Scheduler<'a> {
    pub map_table: Vec<(&'a str, &'a str, &'a str)>,
    // addresses of users
    pub user_queue: Vec<User<'a>>,
    // addresses of slaves
    pub slave_queue: Vec<Slave<'a>>,
}

/// What a worker is, as a mathematical value.
#[verifier::ext_equal]
pub struct SlaveState {
    pub busy: bool,
    pub ip: Seq<char>,
}

/// What a waiting user is, as a mathematical value.
#[verifier::ext_equal]
pub struct UserState {
    pub sub_model: Seq<Seq<char>>,
    pub ip: Seq<char>,
}

/// What a scheduler is, as a mathematical value.
#[verifier::ext_equal]
pub struct SchedulerState {
    pub map_table: Seq<(Seq<char>, Seq<char>, Seq<char>)>,
    pub users: Seq<UserState>,
    pub slaves: Seq<SlaveState>,
}

impl<'a> View for Slave<'a> {
    type V = SlaveState;

    open spec fn view(&self) -> SlaveState {
        SlaveState { busy: self.busy_flag, ip: self.slave_ip@ }
    }
}

impl<'a> View for User<'a> {
    type V = UserState;

    open spec fn view(&self) -> UserState {
        UserState { sub_model: self.sub_model@.map_values(|m: &'a str| m@), ip: self.user_ip@ }
    }
}

/// The view of one row of the model table.
pub open spec fn entry_view(e: (&str, &str, &str)) -> (Seq<char>, Seq<char>, Seq<char>) {
    (e.0@, e.1@, e.2@)
}

impl<'a> View for Scheduler<'a> {
    type V = SchedulerState;

    open spec fn view(&self) -> SchedulerState {
        SchedulerState {
            map_table: self.map_table@.map_values(|e: (&'a str, &'a str, &'a str)| entry_view(e)),
            users: self.user_queue@.map_values(|u: User<'a>| u@),
            slaves: self.slave_queue@.map_values(|s: Slave<'a>| s@),
        }
    }
}

/// The workers after the busy flag of each one at address `ip` was flipped.
pub open spec fn toggled_slaves(slaves: Seq<SlaveState>, ip: Seq<char>) -> Seq<SlaveState> {
    Seq::new(
        slaves.len(),
        |i: int|
            SlaveState {
                busy: if slaves[i].ip == ip {
                    !slaves[i].busy
                } else {
                    slaves[i].busy
                },
                ip: slaves[i].ip,
            },
    )
}

/// The scheduler after the busy flag of each worker at address `ip` was flipped.
pub open spec fn toggled(st: SchedulerState, ip: Seq<char>) -> SchedulerState {
    SchedulerState { slaves: toggled_slaves(st.slaves, ip), ..st }
}

/// The users that a request for `model` from `ip` adds: one for each table
/// row named `model`, whose sub-models are the row's name split at commas.
pub open spec fn added_users(
    table: Seq<(Seq<char>, Seq<char>, Seq<char>)>,
    model: Seq<char>,
    ip: Seq<char>,
) -> Seq<UserState>
    decreases table.len(),
{
    if table.len() == 0 {
        Seq::<UserState>::empty()
    } else {
        let prev = added_users(table.drop_last(), model, ip);
        if table.last().0 == model {
            prev.push(UserState { sub_model: split_seq(table.last().0, ','), ip })
        } else {
            prev
        }
    }
}

/// The idle worker at `ip`.
pub open spec fn idle_slave(ip: Seq<char>) -> SlaveState {
    SlaveState { busy: false, ip }
}

/// The state that `init` produces: one model, no users, five idle workers.
pub open spec fn initial_state() -> SchedulerState {
    SchedulerState {
        map_table: seq![("resnet18"@, "0,1,2,3,4"@, "4242-4246"@)],
        users: Seq::<UserState>::empty(),
        slaves: seq![
            idle_slave("127.0.0.1:4242"@),
            idle_slave("127.0.0.1:4243"@),
            idle_slave("127.0.0.1:4244"@),
            idle_slave("127.0.0.1:4245"@),
            idle_slave("127.0.0.1:4246"@),
        ],
    }
}

impl<'a> Clone for Slave<'a> {
    fn clone(&self) -> (res: Self)
        ensures
            res == *self,
    {
        Self { busy_flag: self.busy_flag, slave_ip: self.slave_ip }
    }
}

impl<'a> Clone for User<'a> {
    fn clone(&self) -> (res: Self)
        ensures
            res@ == self@,
    {
        let mut sb: Vec<&'a str> = Vec::new();
        let mut i: usize = 0;
        while i < self.sub_model.len()
            invariant
                i <= self.sub_model@.len(),
                sb@ == self.sub_model@.take(i as int),
            decreases self.sub_model@.len() - i,
        {
            sb.push(self.sub_model[i]);
            i = i + 1;
            assert(sb@ =~= self.sub_model@.take(i as int));
        }
        assert(sb@ =~= self.sub_model@);
        Self { sub_model: sb, user_ip: self.user_ip }
    }
}

impl<'a> Scheduler<'a> {
    fn clone(&self) -> (res: Self)
        ensures
            res@ == self@,
    {
        let mut map_table: Vec<(&'a str, &'a str, &'a str)> = Vec::new();
        let mut i: usize = 0;
        while i < self.map_table.len()
            invariant
                i <= self.map_table@.len(),
                map_table@ == self.map_table@.take(i as int),
            decreases self.map_table@.len() - i,
        {
            map_table.push(self.map_table[i]);
            i = i + 1;
            assert(map_table@ =~= self.map_table@.take(i as int));
        }
        let mut user_queue: Vec<User<'a>> = Vec::new();
        let mut j: usize = 0;
        while j < self.user_queue.len()
            invariant
                j <= self.user_queue@.len(),
                user_queue@.len() == j,
                forall|k: int| 0 <= k < j ==> user_queue@[k]@ == self.user_queue@[k]@,
            decreases self.user_queue@.len() - j,
        {
            user_queue.push(self.user_queue[j].clone());
            j = j + 1;
        }
        let mut slave_queue: Vec<Slave<'a>> = Vec::new();
        let mut k: usize = 0;
        while k < self.slave_queue.len()
            invariant
                k <= self.slave_queue@.len(),
                slave_queue@ == self.slave_queue@.take(k as int),
            decreases self.slave_queue@.len() - k,
        {
            slave_queue.push(self.slave_queue[k].clone());
            k = k + 1;
            assert(slave_queue@ =~= self.slave_queue@.take(k as int));
        }
        assert(map_table@ =~= self.map_table@);
        assert(slave_queue@ =~= self.slave_queue@);
        let res = Self { map_table, user_queue, slave_queue };
        assert(res@.users =~= self@.users);
        assert(res@.map_table =~= self@.map_table);
        assert(res@.slaves =~= self@.slaves);
        res
    }

    /// Builds the scheduler's starting state: the model table, an empty
    /// user queue and five idle workers.
    pub fn init(self) -> (res: Scheduler<'a>)
        ensures
            res@ == initial_state(),
    {
        let mut map_table: Vec<(&'a str, &'a str, &'a str)> = Vec::new();
        map_table.push(("resnet18", "0,1,2,3,4", "4242-4246"));
        let user_queue: Vec<User<'a>> = Vec::new();
        let mut slave_queue: Vec<Slave<'a>> = Vec::new();
        slave_queue.push(Slave { busy_flag: false, slave_ip: "127.0.0.1:4242" });
        slave_queue.push(Slave { busy_flag: false, slave_ip: "127.0.0.1:4243" });
        slave_queue.push(Slave { busy_flag: false, slave_ip: "127.0.0.1:4244" });
        slave_queue.push(Slave { busy_flag: false, slave_ip: "127.0.0.1:4245" });
        slave_queue.push(Slave { busy_flag: false, slave_ip: "127.0.0.1:4246" });
        let res = Scheduler { map_table, user_queue, slave_queue };
        assert(res@.map_table =~= initial_state().map_table);
        assert(res@.users =~= initial_state().users);
        assert(res@.slaves =~= initial_state().slaves);
        res
    }

    /// Walks the worker queue comparing addresses with `slave_ip`; the
    /// status found for a matching worker is not handed back, and the
    /// answer is always `Err(true)`.
    pub fn is_slave_busy(self, slave_ip: &str) -> (res: Result<(Slave, bool), bool>)
        ensures
            res == Err::<(Slave, bool), bool>(true),
    {
        let mut i: usize = 0;
        while i < self.slave_queue.len()
            invariant
                i <= self.slave_queue@.len(),
            decreases self.slave_queue@.len() - i,
        {
            let slv = self.slave_queue[i].clone();
            if str_eq(slv.slave_ip, slave_ip) {
                let _found: Result<(Slave, bool), bool> = match slv.busy_flag {
                    true => Ok((slv, true)),
                    false => Ok((slv, false)),
                };
            }
            i = i + 1;
        }
        Err(true)
    }

    /// Queues a user at `user_ip` for each table row named `model`; the
    /// user's sub-models are that name split at commas.
    pub fn add_user(&mut self, user_ip: &'a str, model: &str)
        ensures
            final(self)@ == (SchedulerState {
                users: old(self)@.users + added_users(old(self)@.map_table, model@, user_ip@),
                ..old(self)@
            }),
    {
        let ghost table = old(self)@.map_table;
        let ghost users0 = old(self)@.users;
        let n = self.map_table.len();
        let mut i: usize = 0;
        while i < n
            invariant
                n == self.map_table@.len(),
                i <= n,
                self@.map_table == table,
                self@.slaves == old(self)@.slaves,
                self@.users == users0 + added_users(table.take(i as int), model@, user_ip@),
            decreases n - i,
        {
            let md = self.map_table[i];
            let ghost before = self@.users;
            assert(table.take(i + 1).drop_last() =~= table.take(i as int));
            assert(table.take(i + 1).last() == entry_view(md));
            if str_eq(md.0, model) {
                let sub_model = split_char(md.0, ',');
                let user = User { sub_model, user_ip };
                self.user_queue.push(user);
                assert(self@.users =~= before.push(user@));
                assert(user@.sub_model =~= split_seq(md.0@, ','));
                assert(self@.users =~= users0 + added_users(table.take(i + 1), model@, user_ip@));
            } else {
                assert(self@.users =~= users0 + added_users(table.take(i + 1), model@, user_ip@));
            }
            i = i + 1;
        }
        assert(table.take(n as int) =~= table);
    }

    /// Hands a worker to a user; nothing is recorded.
    pub fn send2user(&mut self, user_ip: &str, slave_ip: &str)
        ensures
            final(self)@ == old(self)@,
    {
    }

    /// Flips the busy flag of every worker at address `slave_ip`.
    pub fn change_slave_flag(&mut self, slave_ip: &str)
        ensures
            final(self)@ == toggled(old(self)@, slave_ip@),
            final(self)@.slaves.len() == old(self)@.slaves.len(),
            forall|k: int|
                0 <= k < old(self)@.slaves.len() ==> (#[trigger] final(self)@.slaves[k]).ip == old(
                    self,
                )@.slaves[k].ip && final(self)@.slaves[k].busy == (if old(self)@.slaves[k].ip
                    == slave_ip@ {
                    !old(self)@.slaves[k].busy
                } else {
                    old(self)@.slaves[k].busy
                }),
            final(self)@.users == old(self)@.users,
            final(self)@.map_table == old(self)@.map_table,
    {
        let ghost st0 = old(self)@;
        proof {
            lemma_toggled_flags(st0, slave_ip@);
        }
        let n = self.slave_queue.len();
        let mut i: usize = 0;
        while i < n
            invariant
                n == self.slave_queue@.len(),
                i <= n,
                self@.map_table == st0.map_table,
                self@.users == st0.users,
                self@.slaves.len() == st0.slaves.len(),
                forall|k: int|
                    0 <= k < i ==> self@.slaves[k] == toggled_slaves(st0.slaves, slave_ip@)[k],
                forall|k: int| i <= k < n ==> self@.slaves[k] == st0.slaves[k],
            decreases n - i,
        {
            let ghost prev = self@.slaves;
            if str_eq(self.slave_queue[i].slave_ip, slave_ip) {
                let mut slv = self.slave_queue[i].clone();
                slv.busy_flag = match slv.busy_flag {
                    false => true,
                    true => false,
                };
                self.slave_queue.set(i, slv);
                assert(self@.slaves =~= prev.update(i as int, slv@));
            }
            assert(self@.slaves[i as int] == toggled_slaves(st0.slaves, slave_ip@)[i as int]);
            i = i + 1;
        }
        assert(self@.slaves =~= toggled_slaves(st0.slaves, slave_ip@));
    }

    /// Serves the waiting users in turn: a user's first sub-model is looked
    /// up with `is_slave_busy` and the answer unwrapped. That answer is
    /// always `Err(true)`, so any waiting user makes the call panic; with no
    /// user waiting it leaves the scheduler as it is.
    pub fn find_idle_slave(&mut self, target_model: &str, user_ip: &str)
        requires
            old(self).user_queue@.len() == 0,
        ensures
            final(self)@ == old(self)@,
    {
        let n = self.user_queue.len();
        let mut i: usize = 0;
        while i < n
            invariant
                n == 0,
                self@ == old(self)@,
            decreases n - i,
        {
            let usr = self.user_queue[i].clone();
            let sc = self.clone();
            let (slv, result) = sc.is_slave_busy(usr.sub_model[0]).unwrap();
            if result {
                i = i + 1;
                continue;
            }
            self.send2user(usr.user_ip, slv.slave_ip);
            self.change_slave_flag(slv.slave_ip);
            self.user_queue[i].sub_model.pop();
            i = i + 1;
        }
    }

    /// Marks the worker at `slave_ip` as done by flipping its busy flag in
    /// the scheduler that this call consumes.
    pub fn user_success(self, slave_ip: &str) {
        let mut sched = self;
        sched.change_slave_flag(slave_ip);
    }
}

/// Flipping the flag of the workers at one address twice gives back the
/// scheduler's state as it was.
pub proof fn lemma_change_slave_flag_twice(st: SchedulerState, ip: Seq<char>)
    ensures
        toggled(toggled(st, ip), ip) == st,
{
    assert(toggled_slaves(toggled_slaves(st.slaves, ip), ip) =~= st.slaves);
}

/// Flipping the flags at one address leaves every worker at another
/// address, the users and the model table as they were.
pub proof fn lemma_change_slave_flag_other(st: SchedulerState, ip: Seq<char>, i: int)
    requires
        0 <= i < st.slaves.len(),
        st.slaves[i].ip != ip,
    ensures
        toggled(st, ip).slaves[i] == st.slaves[i],
        toggled(st, ip).users == st.users,
        toggled(st, ip).map_table == st.map_table,
        toggled(st, ip).slaves.len() == st.slaves.len(),
{
}

/// Each user that a request for `model` from `ip` adds waits at `ip`, and
/// its sub-models, joined with commas, spell `model`.
pub proof fn lemma_added_users_spell_model(
    table: Seq<(Seq<char>, Seq<char>, Seq<char>)>,
    model: Seq<char>,
    ip: Seq<char>,
    k: int,
)
    requires
        0 <= k < added_users(table, model, ip).len(),
    ensures
        added_users(table, model, ip)[k].ip == ip,
        join_seq(added_users(table, model, ip)[k].sub_model, ',') == model,
    decreases table.len(),
{
    let prev = added_users(table.drop_last(), model, ip);
    if k < prev.len() {
        lemma_added_users_spell_model(table.drop_last(), model, ip, k);
    } else {
        lemma_split_join(model, ',');
    }
}

/// Flipping the flags at address `ip` flips exactly the workers at `ip`,
/// whatever users wait and whatever the model table holds.
pub proof fn lemma_toggled_flags(st: SchedulerState, ip: Seq<char>)
    ensures
        toggled(st, ip).slaves.len() == st.slaves.len(),
        toggled(st, ip).users == st.users,
        toggled(st, ip).map_table == st.map_table,
        forall|k: int|
            0 <= k < st.slaves.len() ==> (#[trigger] toggled(st, ip).slaves[k]).ip == st.slaves[k].ip
                && toggled(st, ip).slaves[k].busy == (st.slaves[k].ip == ip
                != st.slaves[k].busy),
{
}

/// A request for `model` queues one user per table row named exactly
/// `model`, in the table's order, each with that name split at commas as
/// its sub-models; rows whose names merely begin with `model` add nobody.
pub proof fn lemma_added_users_rows(
    table: Seq<(Seq<char>, Seq<char>, Seq<char>)>,
    model: Seq<char>,
    ip: Seq<char>,
)
    ensures
        added_users(table, model, ip) == table.filter(
            |e: (Seq<char>, Seq<char>, Seq<char>)| e.0 == model,
        ).map_values(
            |e: (Seq<char>, Seq<char>, Seq<char>)|
                UserState { sub_model: split_seq(model, ','), ip },
        ),
        added_users(table, model, ip).len() == table.filter(
            |e: (Seq<char>, Seq<char>, Seq<char>)| e.0 == model,
        ).len(),
    decreases table.len(),
{
    reveal(Seq::filter);
    let pred = |e: (Seq<char>, Seq<char>, Seq<char>)| e.0 == model;
    let f = |e: (Seq<char>, Seq<char>, Seq<char>)|
        UserState { sub_model: split_seq(model, ','), ip };
    if table.len() == 0 {
        assert(table.filter(pred) =~= Seq::<(Seq<char>, Seq<char>, Seq<char>)>::empty());
        assert(table.filter(pred).map_values(f) =~= Seq::<UserState>::empty());
    } else {
        lemma_added_users_rows(table.drop_last(), model, ip);
        let prev = table.drop_last().filter(pred);
        if table.last().0 == model {
            assert(table.filter(pred) == prev.push(table.last()));
            assert(prev.push(table.last()).map_values(f) =~= prev.map_values(f).push(
                f(table.last()),
            ));
        } else {
            assert(table.filter(pred) == prev);
        }
    }
}

} // verus!
