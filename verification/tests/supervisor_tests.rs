use orpipe::binding::Binding;
use orpipe::supervisor::Action;
use orpipe::supervisor::Event;
use orpipe::supervisor::Phase;
use orpipe::supervisor::StopReason;
use orpipe::supervisor::Supervisor;
use orpipe::supervisor::supervisors_for;

fn sample_binding() -> Binding {
    Binding {
        remote_host: String::from("example.onion"),
        remote_port: 80,
        local_host: String::from("127.0.0.1"),
        local_port: 8080,
    }
}

#[test]
fn starts_unbound() {
    let sup = Supervisor::new(sample_binding());
    assert_eq!(sup.phase, Phase::Starting);
    assert_eq!(sup.binding.remote_host, "example.onion");
}

#[test]
fn bind_ok_starts_accepting() {
    let mut sup = Supervisor::new(sample_binding());
    let action = sup.step(Event::BindOk);
    assert!(matches!(action, Action::Accept));
    assert_eq!(sup.phase, Phase::Accepting);
}

#[test]
fn bind_failure_stops_supervisor() {
    let mut sup = Supervisor::new(sample_binding());
    let action = sup.step(Event::BindFailed);
    assert!(matches!(
        action,
        Action::Stop { reason: StopReason::BindFailed }
    ));
    assert_eq!(sup.phase, Phase::Stopped);
}

#[test]
fn accepted_connection_connects_to_own_remote() {
    let mut sup = Supervisor::new(sample_binding());
    sup.step(Event::BindOk);
    let action = sup.step(Event::AcceptOk);
    match action {
        Action::Connect { host, port } => {
            assert_eq!(host, "example.onion");
            assert_eq!(port, 80);
        }
        _ => panic!("expected a connect action"),
    }
    assert_eq!(sup.phase, Phase::AwaitingRemote);
}

#[test]
fn connect_success_spawns_and_keeps_accepting() {
    let mut sup = Supervisor::new(sample_binding());
    sup.step(Event::BindOk);
    sup.step(Event::AcceptOk);
    let action = sup.step(Event::ConnectOk);
    assert!(matches!(action, Action::SpawnAndAccept));
    assert_eq!(sup.phase, Phase::Accepting);
}

#[test]
fn connect_failure_discards_and_keeps_accepting() {
    let mut sup = Supervisor::new(sample_binding());
    sup.step(Event::BindOk);
    sup.step(Event::AcceptOk);
    let action = sup.step(Event::ConnectFailed);
    assert!(matches!(action, Action::DiscardAndAccept));
    assert_eq!(sup.phase, Phase::Accepting);
    let action = sup.step(Event::AcceptOk);
    assert!(matches!(action, Action::Connect { .. }));
}

#[test]
fn accept_failure_stops_only_this_supervisor() {
    let mut sup = Supervisor::new(sample_binding());
    sup.step(Event::BindOk);
    let action = sup.step(Event::AcceptFailed);
    assert!(matches!(
        action,
        Action::Stop { reason: StopReason::AcceptFailed }
    ));
    assert_eq!(sup.phase, Phase::Stopped);

    let mut sibling = Supervisor::new(sample_binding());
    sibling.step(Event::BindOk);
    assert_eq!(sibling.phase, Phase::Accepting);
}

#[test]
fn each_binding_gets_its_own_supervisor() {
    let bindings = vec![
        Binding {
            remote_host: String::from("first.onion"),
            remote_port: 80,
            local_host: String::from("127.0.0.1"),
            local_port: 8080,
        },
        Binding {
            remote_host: String::from("second.onion"),
            remote_port: 443,
            local_host: String::from("127.0.0.1"),
            local_port: 8443,
        },
    ];
    let mut sups = supervisors_for(&bindings);
    assert_eq!(sups.len(), 2);
    for (i, sup) in sups.iter_mut().enumerate() {
        assert_eq!(sup.phase, Phase::Starting);
        sup.step(Event::BindOk);
        let action = sup.step(Event::AcceptOk);
        match action {
            Action::Connect { host, port } => {
                assert_eq!(host, bindings[i].remote_host);
                assert_eq!(port, bindings[i].remote_port);
            }
            _ => panic!("expected a connect action"),
        }
    }
}

#[test]
fn duplicate_copies_all_fields() {
    let b = sample_binding();
    let d = b.duplicate();
    assert_eq!(d.remote_host, b.remote_host);
    assert_eq!(d.remote_port, b.remote_port);
    assert_eq!(d.local_host, b.local_host);
    assert_eq!(d.local_port, b.local_port);
}
