use sansio::Protocol;
use std::collections::VecDeque;
use std::time::{Duration, Instant};

/// Splits each inbound text into its first character and the rest, upper-cases
/// outbound text, counts events, and keeps one idle timer of five seconds that
/// every accepted inbound text restarts.
struct Echo {
    routs: VecDeque<String>,
    wouts: VecDeque<String>,
    eouts: VecDeque<u32>,
    deadline: Option<Instant>,
    now: Instant,
    closed: u32,
}

impl Echo {
    fn new(now: Instant) -> Self {
        Echo {
            routs: VecDeque::new(),
            wouts: VecDeque::new(),
            eouts: VecDeque::new(),
            deadline: None,
            now,
            closed: 0,
        }
    }
}

impl Protocol<String, String, u32> for Echo {
    type Rout = String;
    type Wout = String;
    type Eout = u32;
    type Error = String;

    fn handle_read(&mut self, msg: String) -> Result<(), String> {
        if msg.is_empty() {
            return Err("empty message".to_string());
        }
        let (head, rest) = msg.split_at(1);
        self.routs.push_back(head.to_string());
        if !rest.is_empty() {
            self.routs.push_back(rest.to_string());
        }
        self.deadline = Some(self.now + Duration::from_secs(5));
        Ok(())
    }

    fn poll_read(&mut self) -> Option<String> {
        self.routs.pop_front()
    }

    fn handle_write(&mut self, msg: String) -> Result<(), String> {
        if msg.len() > 8 {
            return Err("message too long".to_string());
        }
        self.wouts.push_back(msg.to_uppercase());
        Ok(())
    }

    fn poll_write(&mut self) -> Option<String> {
        self.wouts.pop_front()
    }

    fn handle_event(&mut self, evt: u32) -> Result<(), String> {
        self.eouts.push_back(evt + 1);
        Ok(())
    }

    fn poll_event(&mut self) -> Option<u32> {
        self.eouts.pop_front()
    }

    fn handle_timeout(&mut self, now: Instant) -> Result<(), String> {
        self.now = now;
        if let Some(deadline) = self.deadline {
            if now >= deadline {
                self.deadline = None;
            }
        }
        Ok(())
    }

    fn poll_timeout(&mut self) -> Option<Instant> {
        self.deadline
    }

    fn close(&mut self) -> Result<(), String> {
        self.closed += 1;
        Ok(())
    }
}

/// Passes bytes through on both channels and keeps every provided operation.
struct Plain {
    routs: VecDeque<u8>,
    wouts: VecDeque<u8>,
}

impl Plain {
    fn new() -> Self {
        Plain { routs: VecDeque::new(), wouts: VecDeque::new() }
    }
}

impl Protocol<u8, u8, ()> for Plain {
    type Rout = u8;
    type Wout = u8;
    type Eout = ();
    type Error = ();

    fn handle_read(&mut self, msg: u8) -> Result<(), ()> {
        self.routs.push_back(msg);
        Ok(())
    }

    fn poll_read(&mut self) -> Option<u8> {
        self.routs.pop_front()
    }

    fn handle_write(&mut self, msg: u8) -> Result<(), ()> {
        self.wouts.push_back(msg);
        Ok(())
    }

    fn poll_write(&mut self) -> Option<u8> {
        self.wouts.pop_front()
    }
}

/// Doubles each byte on the read channel, drops writes, keeps every provided
/// operation.
struct Doubler {
    routs: VecDeque<u8>,
}

impl Protocol<u8, u8, ()> for Doubler {
    type Rout = u8;
    type Wout = u8;
    type Eout = ();
    type Error = ();

    fn handle_read(&mut self, msg: u8) -> Result<(), ()> {
        match msg.checked_mul(2) {
            Some(twice) => {
                self.routs.push_back(twice);
                Ok(())
            }
            None => Err(()),
        }
    }

    fn poll_read(&mut self) -> Option<u8> {
        self.routs.pop_front()
    }

    fn handle_write(&mut self, _msg: u8) -> Result<(), ()> {
        Ok(())
    }

    fn poll_write(&mut self) -> Option<u8> {
        None
    }
}

/// One step of a driver.
#[derive(Clone, Debug)]
enum Op {
    Read(String),
    PollRead,
    Write(String),
    PollWrite,
    Event(u32),
    PollEvent,
    Timeout(Instant),
    PollTimeout,
    Close,
}

/// What one step returned.
#[derive(Debug, PartialEq)]
enum Seen {
    Handled(Result<(), String>),
    Read(Option<String>),
    Write(Option<String>),
    Event(Option<u32>),
    Deadline(Option<Instant>),
}

fn run<P>(p: &mut P, ops: &[Op]) -> Vec<Seen>
where
    P: Protocol<String, String, u32, Rout = String, Wout = String, Eout = u32, Error = String>
        + ?Sized,
{
    let mut seen = Vec::new();
    for op in ops {
        seen.push(match op.clone() {
            Op::Read(m) => Seen::Handled(p.handle_read(m)),
            Op::PollRead => Seen::Read(p.poll_read()),
            Op::Write(m) => Seen::Handled(p.handle_write(m)),
            Op::PollWrite => Seen::Write(p.poll_write()),
            Op::Event(e) => Seen::Handled(p.handle_event(e)),
            Op::PollEvent => Seen::Event(p.poll_event()),
            Op::Timeout(t) => Seen::Handled(p.handle_timeout(t)),
            Op::PollTimeout => Seen::Deadline(p.poll_timeout()),
            Op::Close => Seen::Handled(p.close()),
        });
    }
    seen
}

fn script(t: Instant) -> Vec<Op> {
    vec![
        Op::PollTimeout,
        Op::Read("abc".to_string()),
        Op::PollTimeout,
        Op::Write("hello".to_string()),
        Op::Read("".to_string()),
        Op::Event(41),
        Op::PollRead,
        Op::Write("far too long for this".to_string()),
        Op::PollWrite,
        Op::PollWrite,
        Op::PollEvent,
        Op::PollEvent,
        Op::Timeout(t + Duration::from_secs(1)),
        Op::PollTimeout,
        Op::Timeout(t + Duration::from_secs(5)),
        Op::PollTimeout,
        Op::Close,
        Op::Read("z".to_string()),
        Op::Close,
        Op::PollRead,
    ]
}

fn state(e: &Echo) -> (Vec<String>, Vec<String>, Vec<u32>, Option<Instant>, Instant, u32) {
    (
        e.routs.iter().cloned().collect(),
        e.wouts.iter().cloned().collect(),
        e.eouts.iter().cloned().collect(),
        e.deadline,
        e.now,
        e.closed,
    )
}

#[test]
fn read_outputs_come_out_in_order() {
    let mut p = Echo::new(Instant::now());
    assert_eq!(p.handle_read("abc".to_string()), Ok(()));
    assert_eq!(p.poll_read(), Some("a".to_string()));
    assert_eq!(p.poll_read(), Some("bc".to_string()));
    assert_eq!(p.poll_read(), None);
}

#[test]
fn several_reads_drain_first_in_first_out() {
    let mut p = Echo::new(Instant::now());
    assert_eq!(p.handle_read("abc".to_string()), Ok(()));
    assert_eq!(p.handle_read("x".to_string()), Ok(()));
    assert_eq!(p.handle_read("yz".to_string()), Ok(()));
    let mut drained = Vec::new();
    while let Some(out) = p.poll_read() {
        drained.push(out);
    }
    assert_eq!(drained, vec!["a", "bc", "x", "y", "z"]);
    assert_eq!(p.poll_read(), None);
    assert_eq!(p.poll_read(), None);
}

#[test]
fn polls_between_reads_keep_the_order() {
    let mut p = Echo::new(Instant::now());
    assert_eq!(p.handle_read("abc".to_string()), Ok(()));
    assert_eq!(p.poll_read(), Some("a".to_string()));
    assert_eq!(p.handle_read("de".to_string()), Ok(()));
    assert_eq!(p.poll_read(), Some("bc".to_string()));
    assert_eq!(p.poll_read(), Some("d".to_string()));
    assert_eq!(p.poll_read(), Some("e".to_string()));
    assert_eq!(p.poll_read(), None);
}

#[test]
fn write_channel_mirrors_read_channel() {
    let mut p = Echo::new(Instant::now());
    assert_eq!(p.handle_write("ab".to_string()), Ok(()));
    assert_eq!(p.handle_write("cd".to_string()), Ok(()));
    assert_eq!(p.poll_write(), Some("AB".to_string()));
    assert_eq!(p.poll_write(), Some("CD".to_string()));
    assert_eq!(p.poll_write(), None);
}

#[test]
fn channels_are_independent() {
    let mut p = Echo::new(Instant::now());
    assert_eq!(p.handle_read("abc".to_string()), Ok(()));
    assert_eq!(p.poll_write(), None);
    assert_eq!(p.poll_event(), None);
    assert_eq!(p.handle_write("w".to_string()), Ok(()));
    assert_eq!(p.poll_event(), None);
    assert_eq!(p.handle_event(1), Ok(()));
    assert_eq!(p.poll_read(), Some("a".to_string()));
    assert_eq!(p.poll_read(), Some("bc".to_string()));
    assert_eq!(p.poll_read(), None);
    assert_eq!(p.poll_write(), Some("W".to_string()));
    assert_eq!(p.poll_write(), None);
    assert_eq!(p.poll_event(), Some(2));
    assert_eq!(p.poll_event(), None);
}

#[test]
fn fresh_instance_has_nothing_pending() {
    let mut p = Echo::new(Instant::now());
    assert_eq!(p.poll_read(), None);
    assert_eq!(p.poll_write(), None);
    assert_eq!(p.poll_event(), None);
    assert_eq!(p.poll_timeout(), None);
    let mut q = Plain::new();
    assert_eq!(q.poll_read(), None);
    assert_eq!(q.poll_write(), None);
    assert_eq!(q.poll_event(), None);
    assert_eq!(q.poll_timeout(), None);
}

#[test]
fn provided_operations_succeed_and_put_out_nothing() {
    let mut p = Plain::new();
    let t = Instant::now();
    for round in 0..3u8 {
        assert_eq!(p.handle_event(()), Ok(()));
        assert_eq!(p.poll_event(), None);
        assert_eq!(p.handle_timeout(t + Duration::from_secs(round as u64)), Ok(()));
        assert_eq!(p.poll_timeout(), None);
        assert_eq!(p.close(), Ok(()));
        assert_eq!(p.handle_read(round), Ok(()));
        assert_eq!(p.poll_timeout(), None);
        assert_eq!(p.poll_event(), None);
    }
    assert_eq!(p.poll_read(), Some(0));
    assert_eq!(p.poll_read(), Some(1));
    assert_eq!(p.poll_read(), Some(2));
    assert_eq!(p.poll_read(), None);
}

#[test]
fn provided_operations_leave_the_queues_alone() {
    let mut p = Plain::new();
    assert_eq!(p.handle_read(7), Ok(()));
    assert_eq!(p.handle_write(9), Ok(()));
    assert_eq!(p.handle_event(()), Ok(()));
    assert_eq!(p.handle_timeout(Instant::now()), Ok(()));
    assert_eq!(p.close(), Ok(()));
    assert_eq!(p.poll_event(), None);
    assert_eq!(p.poll_timeout(), None);
    assert_eq!(p.routs.iter().cloned().collect::<Vec<u8>>(), vec![7]);
    assert_eq!(p.wouts.iter().cloned().collect::<Vec<u8>>(), vec![9]);
}

#[test]
fn deadline_is_set_reported_and_cleared() {
    let t = Instant::now();
    let mut p = Echo::new(t);
    assert_eq!(p.poll_timeout(), None);
    assert_eq!(p.handle_read("abc".to_string()), Ok(()));
    assert_eq!(p.poll_timeout(), Some(t + Duration::from_secs(5)));
    assert_eq!(p.poll_timeout(), Some(t + Duration::from_secs(5)));
    assert_eq!(p.handle_timeout(t + Duration::from_secs(5)), Ok(()));
    assert_eq!(p.poll_timeout(), None);
    assert_eq!(p.poll_timeout(), None);
    assert_eq!(p.handle_read("d".to_string()), Ok(()));
    assert_eq!(p.poll_timeout(), Some(t + Duration::from_secs(10)));
}

#[test]
fn polling_the_deadline_does_not_consume_it() {
    let t = Instant::now();
    let mut p = Echo::new(t);
    assert_eq!(p.handle_read("q".to_string()), Ok(()));
    for _ in 0..4 {
        assert_eq!(p.poll_timeout(), Some(t + Duration::from_secs(5)));
    }
    assert_eq!(p.poll_read(), Some("q".to_string()));
    assert_eq!(p.poll_timeout(), Some(t + Duration::from_secs(5)));
}

#[test]
fn early_timeout_keeps_the_deadline() {
    let t = Instant::now();
    let mut p = Echo::new(t);
    assert_eq!(p.handle_read("abc".to_string()), Ok(()));
    assert_eq!(p.handle_timeout(t + Duration::from_secs(4)), Ok(()));
    assert_eq!(p.poll_timeout(), Some(t + Duration::from_secs(5)));
}

#[test]
fn rejected_input_leaves_the_instance_usable() {
    let mut p = Echo::new(Instant::now());
    assert_eq!(p.handle_read("ab".to_string()), Ok(()));
    assert_eq!(p.handle_read("".to_string()), Err("empty message".to_string()));
    assert_eq!(p.handle_write("123456789".to_string()), Err("message too long".to_string()));
    assert_eq!(p.poll_read(), Some("a".to_string()));
    assert_eq!(p.poll_read(), Some("b".to_string()));
    assert_eq!(p.poll_read(), None);
    assert_eq!(p.poll_write(), None);
    assert_eq!(p.handle_read("c".to_string()), Ok(()));
    assert_eq!(p.poll_read(), Some("c".to_string()));
}

#[test]
fn close_may_be_repeated() {
    let mut p = Echo::new(Instant::now());
    assert_eq!(p.handle_read("abc".to_string()), Ok(()));
    assert_eq!(p.close(), Ok(()));
    assert_eq!(p.close(), Ok(()));
    assert_eq!(p.close(), Ok(()));
    assert_eq!(p.closed, 3);
    assert_eq!(p.poll_read(), Some("a".to_string()));
    assert_eq!(p.handle_write("w".to_string()), Ok(()));
    assert_eq!(p.poll_write(), Some("W".to_string()));
    assert_eq!(p.poll_read(), Some("bc".to_string()));
    assert_eq!(p.poll_read(), None);
    assert_eq!(p.close(), Ok(()));
}

#[test]
fn direct_run_gives_the_expected_results() {
    let t = Instant::now();
    let mut p = Echo::new(t);
    let seen = run(&mut p, &script(t));
    let expected = vec![
        Seen::Deadline(None),
        Seen::Handled(Ok(())),
        Seen::Deadline(Some(t + Duration::from_secs(5))),
        Seen::Handled(Ok(())),
        Seen::Handled(Err("empty message".to_string())),
        Seen::Handled(Ok(())),
        Seen::Read(Some("a".to_string())),
        Seen::Handled(Err("message too long".to_string())),
        Seen::Write(Some("HELLO".to_string())),
        Seen::Write(None),
        Seen::Event(Some(42)),
        Seen::Event(None),
        Seen::Handled(Ok(())),
        Seen::Deadline(Some(t + Duration::from_secs(5))),
        Seen::Handled(Ok(())),
        Seen::Deadline(None),
        Seen::Handled(Ok(())),
        Seen::Handled(Ok(())),
        Seen::Handled(Ok(())),
        Seen::Read(Some("bc".to_string())),
    ];
    assert_eq!(seen, expected);
    assert_eq!(
        state(&p),
        (
            vec!["z".to_string()],
            vec![],
            vec![],
            Some(t + Duration::from_secs(10)),
            t + Duration::from_secs(5),
            2
        )
    );
}

#[test]
fn borrow_adapter_behaves_as_the_value() {
    let t = Instant::now();
    let mut direct = Echo::new(t);
    let expected = run(&mut direct, &script(t));

    let mut wrapped = Echo::new(t);
    {
        let mut borrowed: &mut Echo = &mut wrapped;
        let seen = run::<&mut Echo>(&mut borrowed, &script(t));
        assert_eq!(seen, expected);
    }
    assert_eq!(state(&wrapped), state(&direct));
}

#[test]
fn box_adapter_behaves_as_the_value() {
    let t = Instant::now();
    let mut direct = Echo::new(t);
    let expected = run(&mut direct, &script(t));

    let mut boxed: Box<Echo> = Box::new(Echo::new(t));
    let seen = run::<Box<Echo>>(&mut boxed, &script(t));
    assert_eq!(seen, expected);
    assert_eq!(state(&boxed), state(&direct));
}

#[test]
fn adapters_nest() {
    let t = Instant::now();
    let mut direct = Echo::new(t);
    let expected = run(&mut direct, &script(t));

    let mut boxed: Box<Echo> = Box::new(Echo::new(t));
    {
        let mut borrowed: &mut Box<Echo> = &mut boxed;
        let seen = run::<&mut Box<Echo>>(&mut borrowed, &script(t));
        assert_eq!(seen, expected);
    }
    assert_eq!(state(&boxed), state(&direct));
}

#[test]
fn adapters_forward_provided_operations() {
    let t = Instant::now();
    let mut boxed: Box<Plain> = Box::new(Plain::new());
    assert_eq!(boxed.handle_event(()), Ok(()));
    assert_eq!(boxed.poll_event(), None);
    assert_eq!(boxed.handle_timeout(t), Ok(()));
    assert_eq!(boxed.poll_timeout(), None);
    assert_eq!(boxed.close(), Ok(()));
    assert_eq!(boxed.handle_read(3), Ok(()));
    assert_eq!(boxed.poll_read(), Some(3));

    let mut plain = Plain::new();
    let mut borrowed: &mut Plain = &mut plain;
    assert_eq!(Protocol::handle_event(&mut borrowed, ()), Ok(()));
    assert_eq!(Protocol::poll_event(&mut borrowed), None);
    assert_eq!(Protocol::handle_timeout(&mut borrowed, t), Ok(()));
    assert_eq!(Protocol::poll_timeout(&mut borrowed), None);
    assert_eq!(Protocol::close(&mut borrowed), Ok(()));
    assert_eq!(Protocol::handle_write(&mut borrowed, 4), Ok(()));
    assert_eq!(Protocol::poll_write(&mut borrowed), Some(4));
    assert_eq!(Protocol::poll_write(&mut borrowed), None);
}

#[test]
fn adapters_pass_errors_on() {
    let mut boxed: Box<Echo> = Box::new(Echo::new(Instant::now()));
    assert_eq!(boxed.handle_read("".to_string()), Err("empty message".to_string()));
    let mut echo = Echo::new(Instant::now());
    let mut borrowed: &mut Echo = &mut echo;
    assert_eq!(
        Protocol::handle_write(&mut borrowed, "123456789".to_string()),
        Err("message too long".to_string())
    );
    assert_eq!(Protocol::poll_write(&mut borrowed), None);
}

#[test]
fn boxes_hold_different_implementors() {
    type Handle = Box<dyn Protocol<u8, u8, (), Rout = u8, Wout = u8, Eout = (), Error = ()>>;
    let mut all: Vec<Handle> =
        vec![Box::new(Plain::new()), Box::new(Doubler { routs: VecDeque::new() })];
    let mut outs = Vec::new();
    for p in all.iter_mut() {
        assert_eq!(p.handle_read(21), Ok(()));
        assert_eq!(p.handle_event(()), Ok(()));
        assert_eq!(p.poll_event(), None);
        assert_eq!(p.poll_timeout(), None);
        outs.push(p.poll_read());
        assert_eq!(p.poll_read(), None);
        assert_eq!(p.close(), Ok(()));
    }
    assert_eq!(outs, vec![Some(21), Some(42)]);
    assert_eq!(all[1].handle_read(200), Err(()));
    assert_eq!(all[0].handle_read(200), Ok(()));
    assert_eq!(all[0].poll_read(), Some(200));
}

#[test]
fn borrow_of_a_trait_object_is_a_protocol() {
    let mut d = Doubler { routs: VecDeque::new() };
    let mut handle: &mut dyn Protocol<u8, u8, (), Rout = u8, Wout = u8, Eout = (), Error = ()> =
        &mut d;
    assert_eq!(Protocol::handle_read(&mut handle, 5), Ok(()));
    assert_eq!(Protocol::poll_read(&mut handle), Some(10));
    assert_eq!(Protocol::poll_read(&mut handle), None);
    assert_eq!(Protocol::handle_write(&mut handle, 5), Ok(()));
    assert_eq!(Protocol::poll_write(&mut handle), None);
}

#[test]
fn owner_finds_the_value_as_the_borrow_left_it() {
    let mut echo = Echo::new(Instant::now());
    {
        let mut borrowed: &mut Echo = &mut echo;
        assert_eq!(Protocol::handle_event(&mut borrowed, 7), Ok(()));
        assert_eq!(Protocol::handle_read(&mut borrowed, "abc".to_string()), Ok(()));
        assert_eq!(Protocol::poll_read(&mut borrowed), Some("a".to_string()));
        assert_eq!(Protocol::close(&mut borrowed), Ok(()));
    }
    assert_eq!(echo.eouts.iter().cloned().collect::<Vec<u32>>(), vec![8]);
    assert_eq!(echo.routs.iter().cloned().collect::<Vec<String>>(), vec!["bc".to_string()]);
    assert_eq!(echo.closed, 1);
    assert_eq!(echo.poll_event(), Some(8));
    assert_eq!(echo.poll_read(), Some("bc".to_string()));
    assert_eq!(echo.poll_read(), None);
}

#[test]
fn draining_through_a_borrow_empties_the_value() {
    let mut echo = Echo::new(Instant::now());
    assert_eq!(echo.handle_read("abc".to_string()), Ok(()));
    assert_eq!(echo.handle_read("de".to_string()), Ok(()));
    assert_eq!(echo.handle_event(1), Ok(()));
    assert_eq!(echo.handle_event(2), Ok(()));
    {
        let mut borrowed: &mut Echo = &mut echo;
        let mut drained = Vec::new();
        while let Some(out) = Protocol::poll_read(&mut borrowed) {
            drained.push(out);
        }
        assert_eq!(drained, vec!["a", "bc", "d", "e"]);
        assert_eq!(Protocol::poll_read(&mut borrowed), None);
        assert_eq!(Protocol::poll_event(&mut borrowed), Some(2));
        assert_eq!(Protocol::poll_event(&mut borrowed), Some(3));
        assert_eq!(Protocol::poll_event(&mut borrowed), None);
    }
    assert!(echo.routs.is_empty());
    assert!(echo.eouts.is_empty());
    assert_eq!(echo.poll_read(), None);
    assert_eq!(echo.poll_event(), None);
}

#[test]
fn borrow_made_anew_between_calls_goes_on_where_the_last_one_stopped() {
    let t = Instant::now();
    let mut direct = Echo::new(t);
    let expected = run(&mut direct, &script(t));

    let mut wrapped = Echo::new(t);
    let mut seen = Vec::new();
    for op in script(t) {
        let mut borrowed: &mut Echo = &mut wrapped;
        seen.extend(run::<&mut Echo>(&mut borrowed, &[op]));
    }
    assert_eq!(seen, expected);
    assert_eq!(state(&wrapped), state(&direct));
}

#[test]
fn equal_protocols_and_inputs_give_equal_outcomes() {
    let t = Instant::now();
    let mut one = Echo::new(t);
    let mut other = Echo::new(t);
    assert_eq!(one.handle_read("abc".to_string()), other.handle_read("abc".to_string()));
    assert_eq!(state(&one), state(&other));
    let now = t + Duration::from_secs(5);
    assert_eq!(one.handle_timeout(now), Ok(()));
    assert_eq!(other.handle_timeout(now), Ok(()));
    assert_eq!(state(&one), state(&other));
    assert_eq!(one.poll_timeout(), None);
    assert_eq!(other.poll_timeout(), None);

    let mut boxed: Box<Echo> = Box::new(Echo::new(t));
    let seen_boxed = run::<Box<Echo>>(&mut boxed, &script(t));
    let mut again = Echo::new(t);
    let seen_again = run(&mut again, &script(t));
    assert_eq!(seen_boxed, seen_again);
    assert_eq!(state(&boxed), state(&again));
}
