use synapse::echo::{parse_command, parse_count, ChildCommand, Echo, EchoAction};
use synapse::error::SynapseError;
use synapse::shm::{
    name_fault, posix_name, size_halves, windows_name, Call, Next, Opening, Platform, SharedRegion,
};
use synapse::time::Duration;

/// A system in which calls fail on demand, and which knows names.
struct System {
    names: Vec<String>,
    fail: Option<Call>,
    made: Vec<Call>,
}

impl System {
    fn new() -> System {
        System { names: Vec::new(), fail: None, made: Vec::new() }
    }

    fn call(&mut self, call: Call, name: &str) -> bool {
        self.made.push(call);
        if self.fail == Some(call) {
            return false;
        }
        let known = self.names.iter().position(|n| n == name);
        match call {
            Call::CreateObject => {
                if known.is_some() {
                    return false;
                }
                self.names.push(name.to_string());
                true
            }
            Call::OpenObject => known.is_some(),
            Call::UnlinkName => {
                if let Some(i) = known {
                    self.names.remove(i);
                }
                true
            }
            _ => true,
        }
    }

    fn run(
        &mut self,
        opening: Result<Opening, SynapseError>,
    ) -> Result<SharedRegion, SynapseError> {
        let mut opening = opening?;
        loop {
            match opening.next() {
                Next::Make(call) => {
                    let ok = self.call(call, &opening.name.clone());
                    opening.advance(ok);
                }
                Next::Explain => return Err(opening.explain("the system's words")),
                Next::Nothing => return Ok(opening.finish()),
            }
        }
    }
}

#[test]
fn test_connect_nonexistent() {
    let mut system = System::new();
    let err = system
        .run(SharedRegion::open(Platform::Posix, "syn_err_noexist_42xyz", 256))
        .err()
        .expect("connect should fail for non-existent shm");
    assert!(
        matches!(err, SynapseError::ShmError(_)),
        "expected ShmError, got: {err:?}"
    );
    assert_eq!(
        err,
        SynapseError::ShmError("shm_open open failed: the system's words".to_string())
    );
}

#[test]
fn test_double_host_same_process() {
    let mut system = System::new();
    let first = system
        .run(SharedRegion::create(Platform::Posix, "syn_err_dblhost", 256))
        .expect("first host must succeed");
    // The name is taken while the first is alive.
    let err = system
        .run(SharedRegion::create(Platform::Posix, "syn_err_dblhost", 256))
        .err()
        .expect("second host must fail");
    assert!(
        matches!(err, SynapseError::ShmError(_)),
        "expected ShmError for double-host, got: {err:?}"
    );
    assert_eq!(system.names.len(), 1);
    for call in first.release() {
        system.call(call, first.name());
    }
    assert!(system.names.is_empty());
    assert!(system.run(SharedRegion::create(Platform::Posix, "syn_err_dblhost", 256)).is_ok());
}

#[test]
fn calls_of_a_posix_creator() {
    let mut system = System::new();
    let region = system.run(SharedRegion::create(Platform::Posix, "r", 4096)).unwrap();
    assert_eq!(
        system.made,
        vec![
            Call::CreateObject,
            Call::SetSize,
            Call::MapView,
            Call::CloseObject,
            Call::ZeroFill,
        ]
    );
    assert_eq!(region.size(), 4096);
    assert_eq!(region.name(), "r");
    assert!(region.is_creator);
    assert_eq!(region.release(), vec![Call::Unmap, Call::UnlinkName]);
}

#[test]
fn calls_of_a_posix_opener() {
    let mut system = System::new();
    system.names.push("r".to_string());
    let region = system.run(SharedRegion::open(Platform::Posix, "r", 64)).unwrap();
    assert_eq!(system.made, vec![Call::OpenObject, Call::MapView, Call::CloseObject]);
    assert!(!region.is_creator);
    assert_eq!(region.release(), vec![Call::Unmap]);
}

#[test]
fn failures_are_undone() {
    let cases = [
        (Platform::Posix, true, Call::CreateObject, "shm_open create failed: ", vec![]),
        (
            Platform::Posix,
            true,
            Call::SetSize,
            "ftruncate failed: ",
            vec![Call::CloseObject, Call::UnlinkName],
        ),
        (
            Platform::Posix,
            true,
            Call::MapView,
            "mmap failed: ",
            vec![Call::CloseObject, Call::UnlinkName],
        ),
        (Platform::Posix, false, Call::OpenObject, "shm_open open failed: ", vec![]),
        (Platform::Posix, false, Call::MapView, "mmap failed: ", vec![Call::CloseObject]),
        (Platform::Windows, true, Call::CreateObject, "CreateFileMappingA failed: ", vec![]),
        (
            Platform::Windows,
            true,
            Call::MapView,
            "MapViewOfFile failed: ",
            vec![Call::CloseObject],
        ),
        (Platform::Windows, false, Call::OpenObject, "OpenFileMappingA failed: ", vec![]),
        (
            Platform::Windows,
            false,
            Call::MapView,
            "MapViewOfFile failed: ",
            vec![Call::CloseObject],
        ),
    ];
    for (platform, create, failing, words, undone) in cases {
        let mut system = System::new();
        system.fail = Some(failing);
        let opening = if create {
            SharedRegion::create(platform, "r", 8)
        } else {
            system.names.push("r".to_string());
            SharedRegion::open(platform, "r", 8)
        };
        let err = system.run(opening).err().unwrap();
        assert_eq!(err, SynapseError::ShmError(format!("{words}the system's words")));
        let at = system.made.iter().position(|c| *c == failing).unwrap();
        assert_eq!(system.made[at + 1..].to_vec(), undone);
        if platform == Platform::Posix && create {
            assert!(system.names.is_empty());
        }
    }
}

#[test]
fn calls_on_windows() {
    let mut system = System::new();
    let region = system.run(SharedRegion::create(Platform::Windows, "r", 8)).unwrap();
    assert_eq!(system.made, vec![Call::CreateObject, Call::MapView, Call::ZeroFill]);
    assert_eq!(region.release(), vec![Call::Unmap, Call::CloseObject]);
    system.made.clear();
    system.run(SharedRegion::open(Platform::Windows, "r", 8)).unwrap();
    assert_eq!(system.made, vec![Call::OpenObject, Call::MapView]);
}

#[test]
fn names_for_the_system() {
    assert_eq!(posix_name("chan"), "/chan");
    assert_eq!(windows_name("chan"), "Local\\synapse_chan\0");
    assert_eq!(size_halves(0x1_0000_0005), (1, 5));
}

#[test]
fn names_with_a_null_character() {
    let refused = |at: usize| {
        SynapseError::ShmError(format!("nul byte found in provided data at position: {at}"))
    };
    let mut system = System::new();
    for (name, at) in [("a\0b", 2), ("\0", 1), ("\u{fc}\0\0", 3)] {
        assert_eq!(name_fault(Platform::Posix, name), Some(refused(at)));
        let created = system.run(SharedRegion::create(Platform::Posix, name, 8));
        assert_eq!(created.err(), Some(refused(at)));
        let opened = system.run(SharedRegion::open(Platform::Posix, name, 8));
        assert_eq!(opened.err(), Some(refused(at)));
        assert_eq!(name_fault(Platform::Windows, name), None);
    }
    // No call was made.
    assert!(system.made.is_empty());
    assert_eq!(name_fault(Platform::Posix, ""), None);
    assert_eq!(name_fault(Platform::Posix, "ab0"), None);
}

fn args(list: &[&str]) -> Vec<String> {
    list.iter().map(|s| s.to_string()).collect()
}

#[test]
fn child_commands() {
    assert_eq!(
        parse_command(&args(&["prog", "connect-echo", "n"])),
        Ok(ChildCommand::ConnectEcho)
    );
    assert_eq!(
        parse_command(&args(&["prog", "connect-bidi", "n", "12"])),
        Ok(ChildCommand::ConnectBidi(12))
    );
    assert_eq!(
        parse_command(&args(&["prog", "connect-bidi", "n"])),
        Ok(ChildCommand::ConnectBidi(1))
    );
    assert_eq!(
        parse_command(&args(&["prog", "connect-bidi", "n", "many"])),
        Ok(ChildCommand::ConnectBidi(1))
    );
    assert_eq!(parse_command(&args(&["prog", "try-host", "n"])), Ok(ChildCommand::TryHost));
    assert_eq!(
        parse_command(&args(&["prog", "try-host"])),
        Err("usage: synapse_bridge_child <command> <name> [extra...]".to_string())
    );
    assert_eq!(
        parse_command(&args(&["prog", "dance", "n"])),
        Err("unknown command: dance".to_string())
    );
}

#[test]
fn counts() {
    for text in ["0", "7", "0012", "+5", "", "+", "-1", "1a", " 1", "18446744073709551616"] {
        assert_eq!(parse_count(text), text.parse::<usize>().ok(), "{text}");
    }
    let largest = usize::MAX.to_string();
    assert_eq!(parse_count(&largest), Some(usize::MAX));
}

#[test]
fn echo_answers() {
    let at = Duration::from_millis;
    let mut echo = Echo::connect_echo(at(100));
    assert_eq!(echo.step(None, &at(100)), EchoAction::Pause { millis: 2 });
    assert_eq!(
        echo.step(Some(b"hi".to_vec()), &at(60_000)),
        EchoAction::Send(b"ACK:hi".to_vec())
    );
    assert_eq!(echo.step(None, &at(60_000)), EchoAction::Finish);
    let mut echo = Echo::connect_bidi(2, at(0));
    assert_eq!(
        echo.step(Some(b"1".to_vec()), &at(4000)),
        EchoAction::Send(b"ECHO:1".to_vec())
    );
    echo.answered(at(4001));
    assert_eq!(echo.step(None, &at(9000)), EchoAction::Pause { millis: 2 });
    assert_eq!(
        echo.step(Some(b"".to_vec()), &at(9000)),
        EchoAction::Send(b"ECHO:".to_vec())
    );
    assert_eq!(echo.remaining, 0);
    assert_eq!(Echo::connect_bidi(0, at(0)).step(None, &at(0)), EchoAction::Finish);
}

#[test]
fn each_message_has_five_seconds() {
    let mut echo = Echo::connect_bidi(3, Duration::from_millis(1000));
    assert_eq!(echo.step(None, &Duration::from_millis(6000)), EchoAction::Pause { millis: 2 });
    let over = Duration { secs: 6, nanos: 1 };
    assert_eq!(echo.step(None, &over), EchoAction::TimeOut);
    echo.answered(over);
    assert_eq!(echo.step(None, &Duration::from_millis(11_000)), EchoAction::Pause { millis: 2 });
    assert_eq!(echo.step(None, &Duration { secs: 11, nanos: 2 }), EchoAction::TimeOut);
    // A clock that is behind is no reason to give up.
    assert_eq!(echo.step(None, &Duration::from_millis(0)), EchoAction::Pause { millis: 2 });
}

#[test]
fn system_errors_keep_their_words() {
    let e = SynapseError::from(std::io::Error::new(
        std::io::ErrorKind::Other,
        "no space left",
    ));
    assert_eq!(e, SynapseError::Io("no space left".to_string()));
    assert_eq!(e.to_string(), "I/O error: no space left");
}
