use scheduler::master::{Scheduler, Slave, User};

fn empty_scheduler<'a>() -> Scheduler<'a> {
    Scheduler { map_table: vec![], user_queue: vec![], slave_queue: vec![] }
}

fn flags(s: &Scheduler) -> Vec<bool> {
    s.slave_queue.iter().map(|x| x.busy_flag).collect()
}

#[test]
fn init_builds_table_and_idle_workers() {
    let s = empty_scheduler().init();
    assert_eq!(s.map_table, vec![("resnet18", "0,1,2,3,4", "4242-4246")]);
    assert!(s.user_queue.is_empty());
    let ips: Vec<&str> = s.slave_queue.iter().map(|x| x.slave_ip).collect();
    assert_eq!(
        ips,
        vec!["127.0.0.1:4242", "127.0.0.1:4243", "127.0.0.1:4244", "127.0.0.1:4245", "127.0.0.1:4246"]
    );
    assert_eq!(flags(&s), vec![false; 5]);
}

#[test]
fn is_slave_busy_answers_err_true() {
    let s = empty_scheduler().init();
    assert!(matches!(s.is_slave_busy("127.0.0.1:4242"), Err(true)));
    let s = empty_scheduler().init();
    assert!(matches!(s.is_slave_busy("10.0.0.1:1"), Err(true)));
    assert!(matches!(empty_scheduler().is_slave_busy(""), Err(true)));
}

#[test]
fn change_slave_flag_flips_matching_workers_only() {
    let mut s = empty_scheduler().init();
    s.change_slave_flag("127.0.0.1:4244");
    assert_eq!(flags(&s), vec![false, false, true, false, false]);
    s.change_slave_flag("127.0.0.1:4242");
    assert_eq!(flags(&s), vec![true, false, true, false, false]);
    s.change_slave_flag("nowhere");
    assert_eq!(flags(&s), vec![true, false, true, false, false]);
}

#[test]
fn change_slave_flag_twice_restores() {
    let mut s = empty_scheduler().init();
    s.change_slave_flag("127.0.0.1:4243");
    s.change_slave_flag("127.0.0.1:4243");
    assert_eq!(flags(&s), vec![false; 5]);
}

#[test]
fn change_slave_flag_flips_every_duplicate() {
    let mut s = empty_scheduler();
    s.slave_queue = vec![
        Slave { busy_flag: false, slave_ip: "a" },
        Slave { busy_flag: true, slave_ip: "a" },
        Slave { busy_flag: true, slave_ip: "b" },
    ];
    s.change_slave_flag("a");
    assert_eq!(flags(&s), vec![true, false, true]);
}

#[test]
fn add_user_for_served_model() {
    let mut s = empty_scheduler().init();
    s.add_user("10.0.0.7:9000", "resnet18");
    assert_eq!(s.user_queue.len(), 1);
    assert_eq!(s.user_queue[0].user_ip, "10.0.0.7:9000");
    assert_eq!(s.user_queue[0].sub_model, vec!["resnet18"]);
    assert_eq!(flags(&s), vec![false; 5]);
}

#[test]
fn add_user_for_unknown_model_adds_nothing() {
    let mut s = empty_scheduler().init();
    s.add_user("10.0.0.7:9000", "mobilenetv1");
    assert!(s.user_queue.is_empty());
    s.add_user("10.0.0.7:9000", "resnet18\n");
    assert!(s.user_queue.is_empty());
}

#[test]
fn add_user_splits_row_name_at_commas() {
    let mut s = empty_scheduler();
    s.map_table = vec![("a,b,,c", "x", "y"), ("other", "p", "q"), ("a,b,,c", "z", "w")];
    s.add_user("u", "a,b,,c");
    assert_eq!(s.user_queue.len(), 2);
    assert_eq!(s.user_queue[0].sub_model, vec!["a", "b", "", "c"]);
    assert_eq!(s.user_queue[1].sub_model, vec!["a", "b", "", "c"]);
    assert_eq!(s.user_queue[1].user_ip, "u");
}

#[test]
fn send2user_changes_nothing() {
    let mut s = empty_scheduler().init();
    s.send2user("u", "127.0.0.1:4242");
    assert_eq!(flags(&s), vec![false; 5]);
    assert!(s.user_queue.is_empty());
    assert_eq!(s.map_table.len(), 1);
}

#[test]
fn find_idle_slave_without_users_changes_nothing() {
    let mut s = empty_scheduler().init();
    s.find_idle_slave("resnet18", "u");
    assert_eq!(flags(&s), vec![false; 5]);
    assert!(s.user_queue.is_empty());
}

#[test]
fn user_success_consumes_the_scheduler() {
    let s = empty_scheduler().init();
    s.user_success("127.0.0.1:4242");
}

#[test]
fn clones_keep_fields() {
    let u = User { sub_model: vec!["m1", "m2"], user_ip: "ip" };
    let c = u.clone();
    assert_eq!(c.sub_model, vec!["m1", "m2"]);
    assert_eq!(c.user_ip, "ip");
    let w = Slave { busy_flag: true, slave_ip: "w" };
    let d = w.clone();
    assert!(d.busy_flag);
    assert_eq!(d.slave_ip, "w");
}
