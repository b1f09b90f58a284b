use pingbot::structures::{LOGCONDITION, LOGTRIGGER, PERMISSION};

#[test]
fn permission_combine_keeps_the_larger() {
    assert_eq!(PERMISSION::NEUTRAL.combine(PERMISSION::DENY), PERMISSION::DENY);
    assert_eq!(PERMISSION::DENY.combine(PERMISSION::NEUTRAL), PERMISSION::DENY);
    assert_eq!(PERMISSION::DENY.combine(PERMISSION::ALLOW), PERMISSION::ALLOW);
    assert_eq!(PERMISSION::ALLOW.combine(PERMISSION::DENY), PERMISSION::ALLOW);
    assert_eq!(PERMISSION::NEUTRAL.combine(PERMISSION::NEUTRAL), PERMISSION::NEUTRAL);
    assert_eq!(PERMISSION::ALLOW.combine(PERMISSION::NEUTRAL), PERMISSION::ALLOW);
}

#[test]
fn permission_combine_laws_on_values() {
    let all = [PERMISSION::NEUTRAL, PERMISSION::DENY, PERMISSION::ALLOW];
    for a in all {
        assert_eq!(a.combine(a), a);
        assert_eq!(a.combine(PERMISSION::NEUTRAL), a);
        assert_eq!(a.combine(PERMISSION::ALLOW), PERMISSION::ALLOW);
        for b in all {
            assert_eq!(a.combine(b), b.combine(a));
            for c in all {
                assert_eq!(a.combine(b).combine(c), a.combine(b.combine(c)));
            }
        }
    }
}

#[test]
fn permission_numbers() {
    assert_eq!(PERMISSION::fromint(0), PERMISSION::NEUTRAL);
    assert_eq!(PERMISSION::fromint(1), PERMISSION::DENY);
    assert_eq!(PERMISSION::fromint(2), PERMISSION::ALLOW);
    assert_eq!(PERMISSION::NEUTRAL.toint(), 0);
    assert_eq!(PERMISSION::DENY.toint(), 1);
    assert_eq!(PERMISSION::ALLOW.toint(), 2);
    for v in 0..3u64 {
        assert_eq!(PERMISSION::fromint(v).toint(), v);
    }
}

#[test]
fn permission_from_str_accepts_names_and_digits() {
    assert!(PERMISSION::from_str("0") == Ok(PERMISSION::NEUTRAL));
    assert!(PERMISSION::from_str("NEUTRAL") == Ok(PERMISSION::NEUTRAL));
    assert!(PERMISSION::from_str("1") == Ok(PERMISSION::DENY));
    assert!(PERMISSION::from_str("DENY") == Ok(PERMISSION::DENY));
    assert!(PERMISSION::from_str("2") == Ok(PERMISSION::ALLOW));
    assert!(PERMISSION::from_str("ALLOW") == Ok(PERMISSION::ALLOW));
}

#[test]
fn permission_strings_round_trip() {
    for p in [PERMISSION::NEUTRAL, PERMISSION::DENY, PERMISSION::ALLOW] {
        assert!(PERMISSION::from_str(&p.toint().to_string()) == Ok(p));
        let name = match p {
            PERMISSION::NEUTRAL => "NEUTRAL",
            PERMISSION::DENY => "DENY",
            PERMISSION::ALLOW => "ALLOW",
        };
        assert!(PERMISSION::from_str(name) == Ok(p));
    }
}

#[test]
fn permission_from_str_refuses_other_text() {
    for s in ["", "allow", "3", "Deny", " ALLOW"] {
        assert!(PERMISSION::from_str(s) == Err("Invalid string"));
    }
}

#[test]
fn permission_text() {
    assert_eq!(PERMISSION::NEUTRAL.to_text(), "Neutral");
    assert_eq!(PERMISSION::DENY.to_text(), "Deny");
    assert_eq!(PERMISSION::ALLOW.to_text(), "Allow");
}

#[test]
fn trigger_numbers() {
    assert_eq!(LOGTRIGGER::RoleAdd(5).toint(), 0);
    assert_eq!(LOGTRIGGER::RoleRemove(5).toint(), 1);
    assert_eq!(LOGTRIGGER::JoinServer().toint(), 2);
    assert_eq!(LOGTRIGGER::LeaveServer().toint(), 3);
    assert_eq!(LOGTRIGGER::fromint(0, 77), LOGTRIGGER::RoleAdd(77));
    assert_eq!(LOGTRIGGER::fromint(1, 77), LOGTRIGGER::RoleRemove(77));
    assert_eq!(LOGTRIGGER::fromint(2, 77), LOGTRIGGER::JoinServer());
    assert_eq!(LOGTRIGGER::fromint(3, 77), LOGTRIGGER::LeaveServer());
    let t = LOGTRIGGER::RoleRemove(123);
    assert_eq!(LOGTRIGGER::fromint(t.toint(), 123), t);
}

#[test]
fn trigger_text() {
    assert_eq!(LOGTRIGGER::RoleAdd(123).to_text(), "RoleAdd(123)");
    assert_eq!(LOGTRIGGER::RoleRemove(0).to_text(), "RoleRemove(0)");
    assert_eq!(LOGTRIGGER::JoinServer().to_text(), "JoinServer()");
    assert_eq!(LOGTRIGGER::LeaveServer().to_text(), "LeaveServer()");
}

#[test]
fn condition_numbers() {
    assert_eq!(LOGCONDITION::HasRole(9).toint(), 0);
    assert_eq!(LOGCONDITION::fromint(0, 9), LOGCONDITION::HasRole(9));
}
