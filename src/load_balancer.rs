use vstd::prelude::*;
use vstd::string::StringExecFns;
use crate::config::SingleServer;
use crate::consistent_hashing::{ServerPool, MIN_SERVER_ID, MAX_SERVER_ID};

verus! {

/// Membership summary: how many backends are live, and their names.
#[allow(non_snake_case)]
pub struct RepResponseMessage {
    pub N: usize,
    pub replicas: Vec<String>,
}

/// Body of the membership endpoint.
pub struct RespResponse {
    pub message: RepResponseMessage,
    pub status: String,
}

/// Body of a scale-out or scale-in request: a count and the backend names.
pub struct RequestLayout {
    pub n: usize,
    pub hostnames: Vec<String>,
}

/// Per-name result of starting or stopping a backend process.
pub struct RmResponse {
    pub name: String,
    pub status: i32,
    pub stdout: String,
    pub stderr: String,
}

/// What a provisioning process reported: its exit code, if it exited with
/// one, and its trimmed standard output and error. A process that could not
/// be started has no code and the reason as its error text.
pub struct ProcessOutput {
    pub code: Option<i32>,
    pub stdout: String,
    pub stderr: String,
}

/// Status reported for a process that gave no exit code or could not start.
pub const NO_EXIT_CODE: i32 = -255;

/// The status reported for a process's exit code.
pub open spec fn exit_status(code: Option<i32>) -> i32 {
    match code {
        Some(c) => c,
        None => NO_EXIT_CODE,
    }
}

/// The names of a list of backends, in order.
pub open spec fn names_of(servers: Seq<SingleServer>) -> Seq<String> {
    servers.map_values(|s: SingleServer| s.name)
}

/// The membership summary of `pool`, or, where the pool could not be read
/// (`None`), an error summary with no replicas.
pub fn rep(pool: Option<&ServerPool>) -> (r: RespResponse)
    ensures
        match pool {
            Some(p) => r.message.N == p.servers_view().len() && r.message.replicas@ == names_of(
                p.servers_view(),
            ) && r.status@ == "successful"@,
            None => r.message.N == 0 && r.message.replicas@.len() == 0 && r.status@ == "error"@,
        },
{
    match pool {
        Some(p) => {
            let servers = p.server_containers();
            let mut replicas: Vec<String> = Vec::with_capacity(servers.len());
            let mut k: usize = 0;
            while k < servers.len()
                invariant
                    servers@ == p.servers_view(),
                    k <= servers@.len(),
                    replicas@ =~= names_of(servers@).take(k as int),
                decreases servers@.len() - k,
            {
                replicas.push(servers[k].name.clone());
                k += 1;
            }
            assert(replicas@ =~= names_of(servers@));
            RespResponse {
                message: RepResponseMessage { N: servers.len(), replicas },
                status: String::from_str("successful"),
            }
        },
        None => RespResponse {
            message: RepResponseMessage { N: 0, replicas: Vec::new() },
            status: String::from_str("error"),
        },
    }
}

/// The result entry for `name`, from what its provisioning process reported.
pub fn provision_report(name: &String, out: ProcessOutput) -> (r: RmResponse)
    ensures
        r.name == *name,
        r.status == exit_status(out.code),
        r.stdout == out.stdout,
        r.stderr == out.stderr,
{
    let status = match out.code {
        Some(c) => c,
        None => NO_EXIT_CODE,
    };
    RmResponse { name: name.clone(), status, stdout: out.stdout, stderr: out.stderr }
}

/// Records a scale-out of `name` on `port`: the backend is admitted on the
/// local host whatever the provisioning outcome (no roll-back), and the
/// outcome is reported.
#[verifier::truncate]
pub fn add_server(pool: &mut ServerPool, name: &String, port: u64, outcome: ProcessOutput) -> (r: RmResponse)
    ensures
        exists|s: SingleServer|
            s.host@ == "127.0.0.1"@ && s.port == port as u16 && s.name == *name && MIN_SERVER_ID
                <= s.id < MAX_SERVER_ID && final(pool).servers_view() == old(
                pool,
            ).servers_view().push(s),
        final(pool).wf(),
        r.name == *name,
        r.status == exit_status(outcome.code),
        r.stdout == outcome.stdout,
        r.stderr == outcome.stderr,
{
    let report = provision_report(name, outcome);
    pool.add_server(name.clone(), String::from_str("127.0.0.1"), port as u16);
    report
}

/// Records a scale-in of `name`: the first backend of that name leaves the
/// pool (an unknown name is no error), and the outcome is reported.
pub fn remove_server(pool: &mut ServerPool, name: &String, outcome: ProcessOutput) -> (r: RmResponse)
    requires
        old(pool).wf(),
    ensures
        (exists|k: int|
            0 <= k < old(pool).servers_view().len() && old(pool).servers_view()[k].name@ == name@
                && (forall|m: int| 0 <= m < k ==> old(pool).servers_view()[m].name@ != name@)
                && final(pool).servers_view() == old(pool).servers_view().remove(k))
            || ((forall|k: int|
            0 <= k < old(pool).servers_view().len() ==> old(pool).servers_view()[k].name@ != name@)
            && final(pool).servers_view() == old(pool).servers_view()),
        final(pool).wf(),
        r.name == *name,
        r.status == exit_status(outcome.code),
        r.stdout == outcome.stdout,
        r.stderr == outcome.stderr,
{
    let report = provision_report(name, outcome);
    pool.remove_server(name);
    report
}

/// The character of a decimal digit.
pub open spec fn digit_char(d: nat) -> char {
    if d == 0 {
        '0'
    } else if d == 1 {
        '1'
    } else if d == 2 {
        '2'
    } else if d == 3 {
        '3'
    } else if d == 4 {
        '4'
    } else if d == 5 {
        '5'
    } else if d == 6 {
        '6'
    } else if d == 7 {
        '7'
    } else if d == 8 {
        '8'
    } else {
        '9'
    }
}

/// Decimal notation of a number, without leading zeros.
pub open spec fn decimal(n: nat) -> Seq<char>
    decreases n,
{
    if n < 10 {
        seq![digit_char(n)]
    } else {
        decimal(n / 10).push(digit_char(n % 10))
    }
}

fn digit_str(d: u64) -> (r: &'static str)
    requires
        d < 10,
    ensures
        r@ == seq![digit_char(d as nat)],
{
    if d == 0 {
        proof {
            reveal_strlit("0");
        }
        assert("0"@ =~= seq![digit_char(d as nat)]);
        "0"
    } else if d == 1 {
        proof {
            reveal_strlit("1");
        }
        assert("1"@ =~= seq![digit_char(d as nat)]);
        "1"
    } else if d == 2 {
        proof {
            reveal_strlit("2");
        }
        assert("2"@ =~= seq![digit_char(d as nat)]);
        "2"
    } else if d == 3 {
        proof {
            reveal_strlit("3");
        }
        assert("3"@ =~= seq![digit_char(d as nat)]);
        "3"
    } else if d == 4 {
        proof {
            reveal_strlit("4");
        }
        assert("4"@ =~= seq![digit_char(d as nat)]);
        "4"
    } else if d == 5 {
        proof {
            reveal_strlit("5");
        }
        assert("5"@ =~= seq![digit_char(d as nat)]);
        "5"
    } else if d == 6 {
        proof {
            reveal_strlit("6");
        }
        assert("6"@ =~= seq![digit_char(d as nat)]);
        "6"
    } else if d == 7 {
        proof {
            reveal_strlit("7");
        }
        assert("7"@ =~= seq![digit_char(d as nat)]);
        "7"
    } else if d == 8 {
        proof {
            reveal_strlit("8");
        }
        assert("8"@ =~= seq![digit_char(d as nat)]);
        "8"
    } else {
        proof {
            reveal_strlit("9");
        }
        assert("9"@ =~= seq![digit_char(d as nat)]);
        "9"
    }
}

/// A number written in decimal.
pub fn decimal_string(n: u64) -> (r: String)
    ensures
        r@ == decimal(n as nat),
    decreases n,
{
    if n < 10 {
        String::from_str(digit_str(n))
    } else {
        let prefix = decimal_string(n / 10);
        let r = prefix.concat(digit_str(n % 10));
        assert(r@ =~= decimal(n as nat));
        r
    }
}

/// Arguments of the container command that starts backend `name`, publishing
/// its service port 8000 on host port `port`.
pub fn create_docker_instance(name: &String, port: u64) -> (r: Vec<String>)
    ensures
        r@.len() == 9,
        r@[0]@ == "run"@,
        r@[1]@ == "-d"@,
        r@[2]@ == "--name"@,
        r@[3] == *name,
        r@[4]@ == "-p"@,
        r@[5]@ == decimal(port as nat) + ":8000"@,
        r@[6]@ == "-e"@,
        r@[7]@ == "SERVER_ID="@ + name@,
        r@[8]@ == "nasa_api"@,
{
    let mut r: Vec<String> = Vec::with_capacity(9);
    r.push(String::from_str("run"));
    r.push(String::from_str("-d"));
    r.push(String::from_str("--name"));
    r.push(name.clone());
    r.push(String::from_str("-p"));
    r.push(decimal_string(port).concat(":8000"));
    r.push(String::from_str("-e"));
    r.push(String::from_str("SERVER_ID=").concat(name.as_str()));
    r.push(String::from_str("nasa_api"));
    r
}

/// Arguments of the container command that stops and deletes backend `name`.
pub fn remove_docker_instance(name: &String) -> (r: Vec<String>)
    ensures
        r@.len() == 3,
        r@[0]@ == "rm"@,
        r@[1]@ == "-f"@,
        r@[2] == *name,
{
    let mut r: Vec<String> = Vec::with_capacity(3);
    r.push(String::from_str("rm"));
    r.push(String::from_str("-f"));
    r.push(name.clone());
    r
}

} // verus!
