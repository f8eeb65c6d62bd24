use marduk::interned_string::{InternedString, Interner};
use marduk::load::{Loc, Stack};
use marduk::regs::{args, caller_saved, is_arg, is_caller_saved, Reg, RET_REG};
use marduk::var::{parse_temp_serial, var_args, Var};
use marduk::{Config, LocType};

fn file(interner: &mut Interner, name: &str) -> InternedString {
    InternedString::from_string(name, interner)
}

fn loc(f: InternedString, addr: u64) -> Loc {
    Loc { file_name: f, addr, stack: Stack::NoStack }
}

fn stacked(f: InternedString, addr: u64, stack: Stack) -> Loc {
    Loc { file_name: f, addr, stack }
}

#[test]
fn config_defaults() {
    let c = Config::context_sensitive();
    assert_eq!(c.loc_type, LocType::AddrAndStack);
    assert!(!c.load_only);
    assert!(!c.undef_hack);
    assert!(c.uses_flow());
    assert!(c.uses_ctx());
    assert!(!c.defines_undef());
    let d = Config::context_insensitive();
    assert_eq!(d.loc_type, LocType::Addr);
    assert!(d.uses_flow());
    assert!(!d.uses_ctx());
    let e = Config { loc_type: LocType::Addr, load_only: true, undef_hack: true };
    assert!(!e.uses_flow());
    assert!(e.defines_undef());
}

#[test]
fn interner_gives_equal_names_equal_handles() {
    let mut interner = Interner::new();
    let a = file(&mut interner, "a.elf");
    let b = file(&mut interner, "b.so");
    let a2 = file(&mut interner, "a.elf");
    assert_eq!(a, a2);
    assert_ne!(a, b);
    assert_eq!(interner.len(), 2);
    assert_eq!(a.to_string(&interner), "a.elf");
    assert_eq!(b.to_string(&interner), "b.so");
    assert_eq!(a.index(), 0);
    assert_eq!(b.index(), 1);
    assert_eq!(interner.position("b.so"), Some(1));
    assert_eq!(interner.position("c"), None);
    assert_eq!(InternedString::max(), 255);
}

#[test]
fn interner_holds_the_maximal_number_of_names() {
    let mut interner = Interner::new();
    let mut last = None;
    for i in 0..255 {
        last = Some(file(&mut interner, &format!("f{}", i)));
    }
    assert_eq!(interner.len(), 255);
    assert_eq!(last.unwrap().index(), 254);
    assert_eq!(file(&mut interner, "f17").index(), 17);
}

#[test]
fn register_names_round_trip() {
    let all = vec![
        Reg::RAX, Reg::RBX, Reg::RCX, Reg::RDX, Reg::RSP, Reg::RBP, Reg::RSI, Reg::RDI,
        Reg::R8, Reg::R9, Reg::R10, Reg::R11, Reg::R12, Reg::R13, Reg::R14, Reg::R15,
    ];
    for (i, r) in all.iter().enumerate() {
        assert_eq!(Reg::from_name(r.name()), Some(*r));
        assert_eq!(r.ordinal() as usize, i);
    }
    assert_eq!(Reg::from_name("EAX"), None);
    assert_eq!(Reg::from_name(""), None);
    assert_eq!(Reg::from_name("R1"), None);
    assert_eq!(Reg::R10.name(), "R10");
}

#[test]
fn calling_convention() {
    assert_eq!(args(), vec![Reg::RDI, Reg::RSI, Reg::RDX, Reg::RCX, Reg::R8, Reg::R9]);
    assert_eq!(
        caller_saved(),
        vec![Reg::RAX, Reg::RCX, Reg::RDX, Reg::R8, Reg::R9, Reg::R10, Reg::R11]
    );
    assert_eq!(RET_REG, Reg::RAX);
    assert!(is_arg(Reg::R9));
    assert!(!is_arg(Reg::RAX));
    assert!(is_caller_saved(Reg::R11));
    assert!(!is_caller_saved(Reg::RBX));
    assert_eq!(
        var_args(),
        args().into_iter().map(|register| Var::Register { register }).collect::<Vec<_>>()
    );
}

#[test]
fn loc_is_stacked_unless_no_stack() {
    let mut interner = Interner::new();
    let f = file(&mut interner, "a");
    assert!(!loc(f, 1).is_stacked());
    assert!(stacked(f, 1, Stack::EmptyStack).is_stacked());
    let inner = stacked(f, 2, Stack::EmptyStack);
    assert!(stacked(f, 1, Stack::Return(Box::new(inner))).is_stacked());
}

#[test]
fn relimit_cuts_the_stack() {
    let mut interner = Interner::new();
    let f = file(&mut interner, "a");
    let l3 = stacked(f, 3, Stack::EmptyStack);
    let l2 = stacked(f, 2, Stack::Return(Box::new(l3)));
    let mut s = Stack::Return(Box::new(l2));
    s.relimit(1);
    assert_eq!(s, Stack::Return(Box::new(stacked(f, 2, Stack::EmptyStack))));
    let mut t = Stack::Return(Box::new(stacked(f, 2, Stack::EmptyStack)));
    t.relimit(0);
    assert_eq!(t, Stack::EmptyStack);
    let mut u = Stack::NoStack;
    u.relimit(0);
    assert_eq!(u, Stack::EmptyStack);
    let mut v = Stack::NoStack;
    v.relimit(3);
    assert_eq!(v, Stack::NoStack);
    let mut w = Stack::EmptyStack;
    w.relimit(2);
    assert_eq!(w, Stack::EmptyStack);
}

#[test]
fn deloop_restarts_at_the_first_recurrence() {
    let mut interner = Interner::new();
    let f = file(&mut interner, "a");
    // 7 -> 9 -> 7 -> empty
    let tail = Stack::Return(Box::new(stacked(f, 7, Stack::EmptyStack)));
    let mid = Stack::Return(Box::new(stacked(f, 9, tail.clone())));
    let s = Stack::Return(Box::new(stacked(f, 7, mid.clone())));
    assert_eq!(s.clone().deloop(), tail);
    assert_eq!(mid.clone().deloop(), mid);
    assert_eq!(Stack::EmptyStack.deloop(), Stack::EmptyStack);
    assert_eq!(s.find(9), Some(mid.clone()));
    assert_eq!(s.find(7), Some(s.clone()));
    assert_eq!(s.find(8), None);
    assert_eq!(Stack::NoStack.find(7), None);
    assert!(s.same(&s.dup()));
    assert!(!s.same(&mid));
}

#[test]
fn locations_are_ordered_by_file_address_and_stack() {
    let mut interner = Interner::new();
    let f = file(&mut interner, "a");
    let g = file(&mut interner, "b");
    let mut v = vec![
        stacked(g, 1, Stack::NoStack),
        stacked(f, 2, Stack::EmptyStack),
        stacked(f, 2, Stack::NoStack),
        stacked(f, 1, Stack::Return(Box::new(stacked(f, 9, Stack::EmptyStack)))),
    ];
    v.sort();
    for i in 0..v.len() {
        for j in 0..v.len() {
            let r = v[i].rank(&v[j]);
            let want = if i < j {
                marduk::order::Rank::Below
            } else if i == j {
                marduk::order::Rank::Same
            } else {
                marduk::order::Rank::Above
            };
            assert_eq!(r, want);
            assert_eq!(v[i].same(&v[j]), i == j);
        }
    }
}

#[test]
fn var_kinds() {
    let mut interner = Interner::new();
    let f = file(&mut interner, "a");
    let slot = Var::StackSlot { func_addr: loc(f, 0x10), offset: 8 };
    let reg = Var::Register { register: Reg::RAX };
    let tmp = Var::Temp { serial: 3 };
    let fresh = Var::Alloc { site: loc(f, 0x20), stale: false };
    let freed = Var::Freed { site: stacked(f, 0x30, Stack::EmptyStack) };
    assert!(slot.is_stack() && !slot.is_temp() && !slot.is_dyn() && !slot.is_freed());
    assert!(tmp.is_temp() && !tmp.is_stack());
    assert!(fresh.is_dyn() && !fresh.is_freed());
    assert!(freed.is_freed() && !freed.is_dyn());
    assert!(!reg.is_stacked());
    assert!(!slot.is_stacked());
    assert!(freed.is_stacked());
    assert!(!fresh.is_stacked());
    assert!(slot.other_func(&[loc(f, 0x11)]));
    assert!(slot.other_func(&[]));
    assert!(!slot.other_func(&[loc(f, 0x11), loc(f, 0x10)]));
    assert!(!reg.other_func(&[]));
    assert!(!fresh.other_func(&[]));
}

#[test]
fn vars_are_ordered_as_derived() {
    let mut interner = Interner::new();
    let f = file(&mut interner, "a");
    let mut v = vec![
        Var::Constructed { site: loc(f, 1), serial: 0 },
        Var::Freed { site: loc(f, 1) },
        Var::Alloc { site: loc(f, 1), stale: true },
        Var::Alloc { site: loc(f, 1), stale: false },
        Var::Alloc { site: loc(f, 0), stale: true },
        Var::Temp { serial: 9 },
        Var::Temp { serial: 1 },
        Var::Register { register: Reg::R15 },
        Var::Register { register: Reg::RAX },
        Var::StackSlot { func_addr: loc(f, 1), offset: 8 },
        Var::StackSlot { func_addr: loc(f, 1), offset: 0 },
        Var::StackSlot { func_addr: loc(f, 0), offset: 16 },
    ];
    v.sort();
    for i in 0..v.len() {
        for j in 0..v.len() {
            let want = if i < j {
                marduk::order::Rank::Below
            } else if i == j {
                marduk::order::Rank::Same
            } else {
                marduk::order::Rank::Above
            };
            assert_eq!(v[i].rank(&v[j]), want, "{:?} against {:?}", v[i], v[j]);
        }
    }
    assert_eq!(v[0].copy(), v[0]);
}

#[test]
fn temp_serial_is_read_from_the_name() {
    assert_eq!(Var::temp("v123"), Var::Temp { serial: 123 });
    assert_eq!(Var::temp("#45"), Var::Temp { serial: 45 });
    assert_eq!(Var::temp("t007"), Var::Temp { serial: 7 });
    assert_eq!(parse_temp_serial("v4294967295"), Some(4294967295));
    assert_eq!(parse_temp_serial("v4294967296"), None);
    assert_eq!(parse_temp_serial("v99999999999999999999999"), None);
    assert_eq!(parse_temp_serial("v"), None);
    assert_eq!(parse_temp_serial(""), None);
    assert_eq!(parse_temp_serial("v12x"), None);
    assert_eq!(parse_temp_serial("12"), Some(12));
}
