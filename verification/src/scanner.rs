//! Network scanner bookkeeping: the scan session flag, results and progress, the address
//! range of a CIDR block, and the classification of a host by its open ports. Probing the
//! network (ping, port connects, reverse DNS) happens outside; its results come in here.

use vstd::prelude::*;
use vstd::arithmetic::power2::pow2;
use crate::fmt::{decimal, push_chars, decimal_chars};
use crate::text::owned;
use crate::validation::{is_cidr, validate_cidr};

verus! {

/// A service identified on an open port.
#[derive(Clone, Debug)]
pub struct ServiceInfo {
    pub port: u16,
    pub protocol: String,
    pub service: String,
    pub version: Option<String>,
}

/// What one probe found out about one address.
#[derive(Clone, Debug)]
pub struct ScanResult {
    pub ip: String,
    pub is_alive: bool,
    pub latency_ms: Option<u32>,
    pub open_ports: Vec<u16>,
    pub hostname: Option<String>,
    pub mac_address: Option<String>,
    pub device_type: String,
    pub services: Vec<ServiceInfo>,
    pub vendor: Option<String>,
    pub last_seen: i64,
}

/// Two services agree field for field (texts by their characters).
pub open spec fn same_service(a: ServiceInfo, b: ServiceInfo) -> bool {
    &&& a.port == b.port
    &&& a.protocol@ == b.protocol@
    &&& a.service@ == b.service@
    &&& opt_text(a.version) == opt_text(b.version)
}

pub open spec fn opt_text(o: Option<String>) -> Option<Seq<char>> {
    match o {
        Some(s) => Some(s@),
        None => None,
    }
}

/// Two scan results agree field for field.
pub open spec fn same_result(a: ScanResult, b: ScanResult) -> bool {
    &&& a.ip@ == b.ip@
    &&& a.is_alive == b.is_alive
    &&& a.latency_ms == b.latency_ms
    &&& a.open_ports@ == b.open_ports@
    &&& opt_text(a.hostname) == opt_text(b.hostname)
    &&& opt_text(a.mac_address) == opt_text(b.mac_address)
    &&& a.device_type@ == b.device_type@
    &&& a.services@.len() == b.services@.len()
    &&& forall|i: int| 0 <= i < a.services@.len() ==> same_service(#[trigger] a.services@[i], b.services@[i])
    &&& opt_text(a.vendor) == opt_text(b.vendor)
    &&& a.last_seen == b.last_seen
}

fn copy_text(o: &Option<String>) -> (r: Option<String>)
    ensures
        opt_text(r) == opt_text(*o),
{
    match o {
        Some(s) => Some(s.clone()),
        None => None,
    }
}

impl ServiceInfo {
    pub fn copy(&self) -> (r: Self)
        ensures
            same_service(r, *self),
    {
        ServiceInfo {
            port: self.port,
            protocol: self.protocol.clone(),
            service: self.service.clone(),
            version: copy_text(&self.version),
        }
    }
}

impl ScanResult {
    pub fn copy(&self) -> (r: Self)
        ensures
            same_result(r, *self),
    {
        let mut services: Vec<ServiceInfo> = Vec::new();
        let mut i: usize = 0;
        while i < self.services.len()
            invariant
                i <= self.services@.len(),
                services@.len() == i,
                forall|j: int| 0 <= j < i ==> same_service(#[trigger] services@[j], self.services@[j]),
            decreases self.services@.len() - i,
        {
            services.push(self.services[i].copy());
            i = i + 1;
        }
        let mut open_ports: Vec<u16> = Vec::new();
        let mut k: usize = 0;
        while k < self.open_ports.len()
            invariant
                k <= self.open_ports@.len(),
                open_ports@ == self.open_ports@.subrange(0, k as int),
            decreases self.open_ports@.len() - k,
        {
            open_ports.push(self.open_ports[k]);
            k = k + 1;
            assert(open_ports@ =~= self.open_ports@.subrange(0, k as int));
        }
        assert(self.open_ports@.subrange(0, self.open_ports@.len() as int) =~= self.open_ports@);
        ScanResult {
            ip: self.ip.clone(),
            is_alive: self.is_alive,
            latency_ms: self.latency_ms,
            open_ports,
            hostname: copy_text(&self.hostname),
            mac_address: copy_text(&self.mac_address),
            device_type: self.device_type.clone(),
            services,
            vendor: copy_text(&self.vendor),
            last_seen: self.last_seen,
        }
    }
}

#[derive(Clone, Debug)]
pub struct ScanProgress {
    pub total: usize,
    pub completed: usize,
    pub current_ip: Option<String>,
}

/// Scanner shared state.
pub struct ScannerState {
    pub is_scanning: bool,
    pub results: Vec<ScanResult>,
    pub progress: ScanProgress,
    pub stop_signal: bool,
}

impl ScannerState {
    pub fn new() -> (r: Self)
        ensures
            !r.is_scanning,
            !r.stop_signal,
            r.results@.len() == 0,
            r.progress.total == 0,
            r.progress.completed == 0,
            r.progress.current_ip is None,
    {
        ScannerState {
            is_scanning: false,
            results: Vec::new(),
            progress: ScanProgress { total: 0, completed: 0, current_ip: None },
            stop_signal: false,
        }
    }
}

/// Marks a scan as running until it is released; the only owner of `is_scanning` while
/// a scan runs.
pub struct ScanRunningGuard {
    _private: (),
}

impl ScanRunningGuard {
    pub fn new() -> (r: Self) {
        ScanRunningGuard { _private: () }
    }

    /// The scan has ended: the state is no longer scanning.
    pub fn release(self, state: &mut ScannerState)
        ensures
            !final(state).is_scanning,
            final(state).stop_signal == old(state).stop_signal,
            final(state).results@ == old(state).results@,
            final(state).progress == old(state).progress,
    {
        state.is_scanning = false;
    }
}

/// Starts a scan of `cidr`: validates it, claims the scanning flag (refused while a scan
/// runs), clears the stop signal and the previous results.
pub fn begin_scan(state: &mut ScannerState, cidr: &str) -> (r: Result<ScanRunningGuard, String>)
    ensures
        !is_cidr(cidr@) ==> (r matches Err(e) && e@ == "Invalid CIDR notation"@),
        is_cidr(cidr@) && old(state).is_scanning ==> (r matches Err(e) && e@
            == "Scan already in progress"@),
        r is Ok <==> is_cidr(cidr@) && !old(state).is_scanning,
        r is Ok ==> final(state).is_scanning && !final(state).stop_signal
            && final(state).results@.len() == 0,
        r is Err ==> final(state).is_scanning == old(state).is_scanning && final(state).results@
            == old(state).results@ && final(state).stop_signal == old(state).stop_signal,
        final(state).progress == old(state).progress,
{
    validate_cidr(cidr)?;
    if state.is_scanning {
        return Err(owned("Scan already in progress"));
    }
    state.is_scanning = true;
    state.stop_signal = false;
    state.results = Vec::new();
    Ok(ScanRunningGuard::new())
}

/// Requests the running scan to stop. Only the stop signal changes: the guard owns the
/// scanning flag, so a late release can't clear a newer scan's flag.
pub fn stop_scan(state: &mut ScannerState)
    ensures
        final(state).stop_signal,
        final(state).is_scanning == old(state).is_scanning,
        final(state).results@ == old(state).results@,
        final(state).progress == old(state).progress,
{
    state.stop_signal = true;
}

pub fn get_scan_progress(state: &ScannerState) -> (r: ScanProgress)
    ensures
        r.total == state.progress.total,
        r.completed == state.progress.completed,
        r.current_ip == state.progress.current_ip,
{
    ScanProgress {
        total: state.progress.total,
        completed: state.progress.completed,
        current_ip: state.progress.current_ip.clone(),
    }
}

pub fn get_scan_results(state: &ScannerState) -> (r: Vec<ScanResult>)
    ensures
        r@.len() == state.results@.len(),
        forall|i: int| 0 <= i < r@.len() ==> same_result(#[trigger] r@[i], state.results@[i]),
{
    let mut out: Vec<ScanResult> = Vec::new();
    let mut i: usize = 0;
    while i < state.results.len()
        invariant
            i <= state.results@.len(),
            out@.len() == i,
            forall|j: int| 0 <= j < i ==> same_result(#[trigger] out@[j], state.results@[j]),
        decreases state.results@.len() - i,
    {
        out.push(state.results[i].copy());
        i = i + 1;
    }
    out
}

pub fn is_scanning(state: &ScannerState) -> (r: bool)
    ensures
        r == state.is_scanning,
{
    state.is_scanning
}

/// Sets the progress before the first probe: `total` addresses, none done.
pub fn start_progress(state: &mut ScannerState, total: usize)
    ensures
        final(state).progress.total == total,
        final(state).progress.completed == 0,
        final(state).progress.current_ip == old(state).progress.current_ip,
        final(state).results@ == old(state).results@,
        final(state).is_scanning == old(state).is_scanning,
        final(state).stop_signal == old(state).stop_signal,
{
    state.progress.total = total;
    state.progress.completed = 0;
}

/// Stores one finished probe and counts it. Returns the progress to report.
pub fn record_scan_result(state: &mut ScannerState, scan_result: ScanResult, completed: &mut usize) -> (r: ScanProgress)
    requires
        *old(completed) < usize::MAX,
    ensures
        final(state).results@ == old(state).results@.push(scan_result),
        *final(completed) == *old(completed) + 1,
        final(state).progress.completed == *final(completed),
        final(state).progress.total == old(state).progress.total,
        final(state).progress.current_ip == old(state).progress.current_ip,
        r.completed == *final(completed),
        r.total == old(state).progress.total,
        r.current_ip == old(state).progress.current_ip,
        final(state).is_scanning == old(state).is_scanning,
        final(state).stop_signal == old(state).stop_signal,
{
    state.results.push(scan_result);
    *completed = *completed + 1;
    state.progress.completed = *completed;
    get_scan_progress(state)
}

pub open spec fn has_port(ports: Seq<u16>, p: u16) -> bool {
    ports.contains(p)
}

/// The device class a set of open ports suggests.
pub open spec fn device_type(ports: Seq<u16>) -> Seq<char> {
    if has_port(ports, 80) && has_port(ports, 443) && ports.len() <= 3 {
        "router"@
    } else if has_port(ports, 9100) || has_port(ports, 515) || has_port(ports, 631) {
        "printer"@
    } else if ports.len() >= 3 || has_port(ports, 445) {
        "server"@
    } else if has_port(ports, 22) || has_port(ports, 3389) {
        "workstation"@
    } else {
        "unknown"@
    }
}

fn ports_contain(ports: &[u16], p: u16) -> (r: bool)
    ensures
        r == has_port(ports@, p),
{
    let mut i: usize = 0;
    while i < ports.len()
        invariant
            i <= ports.len(),
            forall|j: int| 0 <= j < i ==> ports@[j] != p,
        decreases ports.len() - i,
    {
        if ports[i] == p {
            assert(ports@[i as int] == p);
            return true;
        }
        i = i + 1;
    }
    false
}

/// Classifies a host by its open ports: management ports only means a router, print
/// ports a printer, many services or SMB a server, SSH or RDP a workstation.
pub fn detect_device_type(open_ports: &[u16]) -> (r: String)
    ensures
        r@ == device_type(open_ports@),
{
    if ports_contain(open_ports, 80) && ports_contain(open_ports, 443) && open_ports.len() <= 3 {
        return owned("router");
    }
    if ports_contain(open_ports, 9100) || ports_contain(open_ports, 515) || ports_contain(
        open_ports,
        631,
    ) {
        return owned("printer");
    }
    if open_ports.len() >= 3 || ports_contain(open_ports, 445) {
        return owned("server");
    }
    if ports_contain(open_ports, 22) || ports_contain(open_ports, 3389) {
        return owned("workstation");
    }
    owned("unknown")
}

/// The well-known service on a port.
pub open spec fn service_name(port: u16) -> Seq<char> {
    if port == 22 {
        "SSH"@
    } else if port == 23 {
        "Telnet"@
    } else if port == 80 {
        "HTTP"@
    } else if port == 443 {
        "HTTPS"@
    } else if port == 445 {
        "SMB"@
    } else if port == 3306 {
        "MySQL"@
    } else if port == 3389 {
        "RDP"@
    } else if port == 5432 {
        "PostgreSQL"@
    } else if port == 6379 {
        "Redis"@
    } else if port == 8080 {
        "HTTP-Alt"@
    } else if port == 9100 {
        "Printer"@
    } else if port == 515 {
        "LPD"@
    } else if port == 631 {
        "IPP"@
    } else {
        "Unknown"@
    }
}

/// The service usually found on `port` (all TCP, no version).
pub fn identify_service(port: u16) -> (r: ServiceInfo)
    ensures
        r.port == port,
        r.protocol@ == "tcp"@,
        r.service@ == service_name(port),
        r.version is None,
{
    let service = if port == 22 {
        "SSH"
    } else if port == 23 {
        "Telnet"
    } else if port == 80 {
        "HTTP"
    } else if port == 443 {
        "HTTPS"
    } else if port == 445 {
        "SMB"
    } else if port == 3306 {
        "MySQL"
    } else if port == 3389 {
        "RDP"
    } else if port == 5432 {
        "PostgreSQL"
    } else if port == 6379 {
        "Redis"
    } else if port == 8080 {
        "HTTP-Alt"
    } else if port == 9100 {
        "Printer"
    } else if port == 515 {
        "LPD"
    } else if port == 631 {
        "IPP"
    } else {
        "Unknown"
    };
    ServiceInfo { port, protocol: owned("tcp"), service: owned(service), version: None }
}

/// How a host's open ports classify it, whatever else is open: 80 and 443 with at most
/// three ports in all make a router; otherwise any of the print ports 9100 (raw), 515
/// (LPD) and 631 (IPP) make a printer; otherwise three or more ports or SMB (445) make a
/// server; otherwise SSH (22) or RDP (3389) make a workstation; anything else is unknown.
pub proof fn law_device_type_by_ports(ports: Seq<u16>)
    ensures
        ports.contains(80) && ports.contains(443) && ports.len() <= 3 ==> device_type(ports) == "router"@,
        !(ports.contains(80) && ports.contains(443) && ports.len() <= 3) && (ports.contains(9100)
            || ports.contains(515) || ports.contains(631)) ==> device_type(ports) == "printer"@,
        !(ports.contains(80) && ports.contains(443) && ports.len() <= 3) && !ports.contains(9100)
            && !ports.contains(515) && !ports.contains(631) && (ports.len() >= 3 || ports.contains(445))
            ==> device_type(ports) == "server"@,
        !(ports.contains(80) && ports.contains(443) && ports.len() <= 3) && !ports.contains(9100)
            && !ports.contains(515) && !ports.contains(631) && ports.len() < 3 && !ports.contains(445)
            && (ports.contains(22) || ports.contains(3389)) ==> device_type(ports) == "workstation"@,
        !(ports.contains(80) && ports.contains(443) && ports.len() <= 3) && !ports.contains(9100)
            && !ports.contains(515) && !ports.contains(631) && ports.len() < 3 && !ports.contains(445)
            && !ports.contains(22) && !ports.contains(3389) ==> device_type(ports) == "unknown"@,
{
}

/// Every probed port names its well-known service (22 SSH, 23 Telnet, 80 HTTP, 443
/// HTTPS, 445 SMB, 3306 MySQL, 3389 RDP, 5432 PostgreSQL, 6379 Redis, 8080 HTTP-Alt,
/// 9100 Printer, 515 LPD, 631 IPP), and exactly the ports not probed are unknown.
pub proof fn law_probed_ports_name_their_services(port: u16)
    ensures
        port == 22 ==> service_name(port) == "SSH"@,
        port == 23 ==> service_name(port) == "Telnet"@,
        port == 80 ==> service_name(port) == "HTTP"@,
        port == 443 ==> service_name(port) == "HTTPS"@,
        port == 445 ==> service_name(port) == "SMB"@,
        port == 3306 ==> service_name(port) == "MySQL"@,
        port == 3389 ==> service_name(port) == "RDP"@,
        port == 5432 ==> service_name(port) == "PostgreSQL"@,
        port == 6379 ==> service_name(port) == "Redis"@,
        port == 8080 ==> service_name(port) == "HTTP-Alt"@,
        port == 9100 ==> service_name(port) == "Printer"@,
        port == 515 ==> service_name(port) == "LPD"@,
        port == 631 ==> service_name(port) == "IPP"@,
        common_ports().contains(port) <==> service_name(port) != "Unknown"@,
{
    reveal_strlit("Unknown");
    reveal_strlit("SSH");
    reveal_strlit("Telnet");
    reveal_strlit("HTTP");
    reveal_strlit("HTTPS");
    reveal_strlit("SMB");
    reveal_strlit("MySQL");
    reveal_strlit("RDP");
    reveal_strlit("PostgreSQL");
    reveal_strlit("Redis");
    reveal_strlit("HTTP-Alt");
    reveal_strlit("Printer");
    reveal_strlit("LPD");
    reveal_strlit("IPP");
    let c = common_ports();
    if c.contains(port) {
        let i = choose|i: int| 0 <= i < c.len() && c[i] == port;
        assert(service_name(port)[0] != 'U');
        assert("Unknown"@[0] == 'U');
    } else {
        assert(port != 22 && port != 23 && port != 80 && port != 443 && port != 445 && port != 3306) by {
            assert(c[0] == 22 && c[1] == 23 && c[2] == 80 && c[3] == 443 && c[4] == 445 && c[5] == 3306);
        }
        assert(port != 3389 && port != 5432 && port != 6379 && port != 8080 && port != 9100 && port != 515 && port != 631) by {
            assert(c[6] == 3389 && c[7] == 5432 && c[8] == 6379 && c[9] == 8080 && c[10] == 9100 && c[11] == 515 && c[12] == 631);
        }
    }
}

/// Ports probed on every live host, in probe order.
pub open spec fn common_ports() -> Seq<u16> {
    seq![22, 23, 80, 443, 445, 3306, 3389, 5432, 6379, 8080, 9100, 515, 631]
}

pub fn common_ports_list() -> (r: Vec<u16>)
    ensures
        r@ == common_ports(),
{
    let r = vec![22u16, 23, 80, 443, 445, 3306, 3389, 5432, 6379, 8080, 9100, 515, 631];
    assert(r@ =~= common_ports());
    r
}

/// Result of `Ipv4Inet::from_str` (cidr crate, as re-exported by cidr-utils) on `s`:
/// the address as a number and the prefix length, or the parse error's text.
pub uninterp spec fn inet4_parse(s: Seq<char>) -> Result<(u32, u8), Seq<char>>;

/// Parses `s` with `cidr_utils::cidr::Ipv4Inet::from_str`. Claims only that the result
/// is `inet4_parse` of the text and that a prefix length is at most 32 (`Inet::new`
/// refuses longer ones).
#[verifier::external_body]
fn parse_inet4(s: &str) -> (r: Result<(u32, u8), String>)
    ensures
        match r {
            Ok(v) => inet4_parse(s@) == Ok::<(u32, u8), Seq<char>>(v) && v.1 <= 32,
            Err(e) => inet4_parse(s@) == Err::<(u32, u8), Seq<char>>(e@),
        },
{
    match s.parse::<cidr_utils::cidr::Ipv4Inet>() {
        Ok(inet) => Ok((u32::from(inet.address()), inet.network_length())),
        Err(e) => Err(e.to_string()),
    }
}

/// Number of addresses in a block with prefix length `len`.
pub open spec fn block_size(len: u8) -> nat {
    pow2((32 - len) as nat)
}

/// First address of the block of `addr` with prefix length `len`.
pub open spec fn network_of(addr: u32, len: u8) -> nat {
    ((addr as nat) / block_size(len)) * block_size(len)
}

/// The addresses a scan of the parsed block covers, or the error it reports.
pub open spec fn cidr_hosts(parsed: Result<(u32, u8), Seq<char>>) -> Result<Seq<u32>, Seq<char>> {
    match parsed {
        Err(e) => Err("Invalid CIDR: "@ + e),
        Ok((addr, len)) => if len < 16 {
            Err("CIDR range too large (/"@ + decimal(len as nat) + " covers "@ + decimal(
                pow2((32 - len) as nat),
            ) + " hosts). Maximum supported range is /16."@)
        } else {
            Ok(Seq::new(block_size(len), |i: int| (network_of(addr, len) + i) as u32))
        },
    }
}

proof fn lemma_block_fits(addr: u32, len: u8)
    requires
        16 <= len <= 32,
    ensures
        1 <= block_size(len) <= 0x1_0000,
        network_of(addr, len) + block_size(len) <= 0x1_0000_0000,
{
    let k = (32 - len) as nat;
    vstd::arithmetic::power2::lemma_pow2_pos(k);
    vstd::arithmetic::power2::lemma_pow2_strictly_increases(k, 17);
    assert(pow2(17) == 0x2_0000) by {
        vstd::arithmetic::power2::lemma2_to64();
    }
    if k < 16 {
        vstd::arithmetic::power2::lemma_pow2_strictly_increases(k, 16);
    }
    assert(pow2(16) == 0x1_0000) by {
        vstd::arithmetic::power2::lemma2_to64();
    }
    assert(pow2(32) == 0x1_0000_0000) by {
        vstd::arithmetic::power2::lemma2_to64();
    }
    vstd::arithmetic::power2::lemma_pow2_adds(k, (32 - k) as nat);
    let size = pow2(k);
    let other = pow2((32 - k) as nat);
    assert(size * other == 0x1_0000_0000);
    let q = (addr as nat) / size;
    assert(q * size <= addr as nat) by {
        vstd::arithmetic::div_mod::lemma_fundamental_div_mod(addr as int, size as int);
        vstd::arithmetic::div_mod::lemma_mod_pos_bound(addr as int, size as int);
    }
    assert(q < other) by {
        if q >= other {
            vstd::arithmetic::mul::lemma_mul_inequality(other as int, q as int, size as int);
            assert(other * size <= q * size);
            vstd::arithmetic::mul::lemma_mul_is_commutative(other as int, size as int);
        }
    }
    assert((q + 1) * size <= other * size) by {
        vstd::arithmetic::mul::lemma_mul_inequality((q + 1) as int, other as int, size as int);
    }
    assert((q + 1) * size == q * size + size) by {
        vstd::arithmetic::mul::lemma_mul_is_distributive_add_other_way(size as int, q as int, 1);
    }
    vstd::arithmetic::mul::lemma_mul_is_commutative(other as int, size as int);
}

/// The addresses of a parsed CIDR block: every address of the block when the prefix is
/// at least /16, otherwise an error naming the block's size.
pub fn hosts_of_inet(parsed: Result<(u32, u8), String>) -> (r: Result<Vec<u32>, String>)
    requires
        parsed matches Ok(v) ==> v.1 <= 32,
    ensures
        match r {
            Ok(v) => cidr_hosts(match parsed {
                Ok(p) => Ok(p),
                Err(e) => Err(e@),
            }) == Ok::<Seq<u32>, Seq<char>>(v@),
            Err(e) => cidr_hosts(match parsed {
                Ok(p) => Ok(p),
                Err(e) => Err(e@),
            }) == Err::<Seq<u32>, Seq<char>>(e@),
        },
{
    match parsed {
        Err(e) => {
            let mut m = owned("Invalid CIDR: ");
            m.append(e.as_str());
            Err(m)
        },
        Ok((addr, len)) => {
            if len < 16 {
                let mut size: u64 = 1;
                let mut k: u8 = 0;
                proof {
                    vstd::arithmetic::power2::lemma2_to64();
                }
                while k < 32 - len
                    invariant
                        len < 16,
                        k <= 32 - len,
                        size == pow2(k as nat),
                    decreases 32 - len - k,
                {
                    proof {
                        vstd::arithmetic::power2::lemma_pow2_unfold((k + 1) as nat);
                        vstd::arithmetic::power2::lemma_pow2_strictly_increases(
                            (k + 1) as nat,
                            33,
                        );
                        assert(pow2(33) == 0x2_0000_0000) by {
                            vstd::arithmetic::power2::lemma2_to64_rest();
                        }
                    }
                    size = size * 2;
                    k = k + 1;
                }
                let mut m = owned("CIDR range too large (/");
                push_chars(&mut m, &decimal_chars(len as u64));
                m.append(" covers ");
                push_chars(&mut m, &decimal_chars(size));
                m.append(" hosts). Maximum supported range is /16.");
                return Err(m);
            }
            let mut size: u32 = 1;
            let mut k: u8 = 0;
            proof {
                lemma_block_fits(addr, len);
                vstd::arithmetic::power2::lemma2_to64();
            }
            while k < 32 - len
                invariant
                    16 <= len <= 32,
                    k <= 32 - len,
                    size == pow2(k as nat),
                decreases 32 - len - k,
            {
                proof {
                    vstd::arithmetic::power2::lemma_pow2_unfold((k + 1) as nat);
                    vstd::arithmetic::power2::lemma_pow2_strictly_increases((k + 1) as nat, 17);
                    assert(pow2(17) == 0x2_0000) by {
                        vstd::arithmetic::power2::lemma2_to64();
                    }
                }
                size = size * 2;
                k = k + 1;
            }
            assert(size == block_size(len));
            proof {
                vstd::arithmetic::div_mod::lemma_fundamental_div_mod(addr as int, size as int);
                vstd::arithmetic::div_mod::lemma_mod_pos_bound(addr as int, size as int);
                vstd::arithmetic::div_mod::lemma_div_pos_is_pos(addr as int, size as int);
                vstd::arithmetic::mul::lemma_mul_nonnegative(size as int, (addr / size) as int);
                vstd::arithmetic::mul::lemma_mul_is_commutative(size as int, (addr / size) as int);
            }
            let network = addr - addr % size;
            assert(network == network_of(addr, len));
            let mut out: Vec<u32> = Vec::new();
            let mut i: u32 = 0;
            while i < size
                invariant
                    16 <= len <= 32,
                    size == block_size(len),
                    network == network_of(addr, len),
                    network_of(addr, len) + block_size(len) <= 0x1_0000_0000,
                    i <= size,
                    out@ == Seq::new(i as nat, |j: int| (network_of(addr, len) + j) as u32),
                decreases size - i,
            {
                out.push(network + i);
                i = i + 1;
                assert(out@ =~= Seq::new(i as nat, |j: int| (network_of(addr, len) + j) as u32));
            }
            Ok(out)
        },
    }
}

/// Every address of `cidr_str` (host bits ignored), for prefixes /16 and longer.
pub fn parse_cidr(cidr_str: &str) -> (r: Result<Vec<u32>, String>)
    ensures
        match r {
            Ok(v) => cidr_hosts(inet4_parse(cidr_str@)) == Ok::<Seq<u32>, Seq<char>>(v@),
            Err(e) => cidr_hosts(inet4_parse(cidr_str@)) == Err::<Seq<u32>, Seq<char>>(e@),
        },
{
    let parsed = parse_inet4(cidr_str);
    hosts_of_inet(parsed)
}

/// Everything a scan of `cidr` does before its first probe: validates the block, claims
/// the scanning flag (refused while a scan runs), resets the stop signal and clears the
/// previous results, lists the block's addresses (refused above 65536 of them, releasing
/// the flag again) and sets the progress to none of them done. A refusal before the
/// flag is claimed changes nothing; the progress is only touched once the addresses are
/// known.
pub fn prepare_scan(state: &mut ScannerState, cidr: &str) -> (r: Result<(ScanRunningGuard, Vec<u32>), String>)
    ensures
        !is_cidr(cidr@) ==> (r matches Err(e) && e@ == "Invalid CIDR notation"@),
        is_cidr(cidr@) && old(state).is_scanning ==> (r matches Err(e) && e@
            == "Scan already in progress"@),
        !is_cidr(cidr@) || old(state).is_scanning ==> {
            &&& final(state).is_scanning == old(state).is_scanning
            &&& final(state).stop_signal == old(state).stop_signal
            &&& final(state).results@ == old(state).results@
        },
        is_cidr(cidr@) && !old(state).is_scanning ==> {
            &&& !final(state).stop_signal
            &&& final(state).results@.len() == 0
            &&& match cidr_hosts(inet4_parse(cidr@)) {
                Err(e) => (r matches Err(m) && m@ == e) && !final(state).is_scanning,
                Ok(hosts) => r matches Ok((_g, v)) && v@ == hosts && final(state).is_scanning,
            }
        },
        r is Err ==> final(state).progress == old(state).progress,
        r matches Ok((_g, v)) ==> final(state).progress.total == v@.len() && final(state).progress.completed
            == 0 && final(state).progress.current_ip == old(state).progress.current_ip,
{
    let guard = begin_scan(state, cidr)?;
    match parse_cidr(cidr) {
        Ok(hosts) => {
            start_progress(state, hosts.len());
            Ok((guard, hosts))
        },
        Err(e) => {
            guard.release(state);
            Err(e)
        },
    }
}

/// The probed ports that answered, in probe order.
pub open spec fn open_ports_of(probed: Seq<u16>, open: Seq<bool>) -> Seq<u16>
    decreases probed.len(),
{
    if probed.len() == 0 || open.len() == 0 {
        seq![]
    } else {
        let rest = open_ports_of(probed.drop_last(), open.drop_last());
        if open.last() && probed.len() == open.len() {
            rest.push(probed.last())
        } else {
            rest
        }
    }
}

/// Assembles the result of probing `ip`: alive when the ping answered (`latency_ms`),
/// the open ports among the probed ones (`port_open[i]` for `probed[i]`, only looked at
/// for a live host), their services, and the device class those ports suggest.
pub fn build_scan_result(
    ip: u32,
    latency_ms: Option<u32>,
    probed: &Vec<u16>,
    port_open: &Vec<bool>,
    hostname: Option<String>,
    last_seen: i64,
) -> (r: ScanResult)
    requires
        probed@.len() == port_open@.len(),
    ensures
        r.ip@ == crate::fmt::ipv4_text(ip),
        r.is_alive == latency_ms is Some,
        r.latency_ms == latency_ms,
        r.open_ports@ == (if latency_ms is Some {
            open_ports_of(probed@, port_open@)
        } else {
            seq![]
        }),
        r.services@.len() == r.open_ports@.len(),
        forall|i: int|
            0 <= i < r.services@.len() ==> (#[trigger] r.services@[i]).port == r.open_ports@[i]
                && r.services@[i].service@ == service_name(r.open_ports@[i]) && r.services@[i].protocol@
                == "tcp"@ && r.services@[i].version is None,
        r.hostname == (if latency_ms is Some { hostname } else { None::<String> }),
        r.device_type@ == device_type(r.open_ports@),
        r.mac_address is None,
        r.vendor is None,
        r.last_seen == last_seen,
{
    let is_alive = latency_ms.is_some();
    let mut open_ports: Vec<u16> = Vec::new();
    let mut services: Vec<ServiceInfo> = Vec::new();
    if is_alive {
        let mut i: usize = 0;
        while i < probed.len()
            invariant
                probed@.len() == port_open@.len(),
                i <= probed@.len(),
                open_ports@ == open_ports_of(probed@.subrange(0, i as int), port_open@.subrange(0, i as int)),
                services@.len() == open_ports@.len(),
                forall|k: int|
                    0 <= k < services@.len() ==> (#[trigger] services@[k]).port == open_ports@[k]
                        && services@[k].service@ == service_name(open_ports@[k]) && services@[k].protocol@
                        == "tcp"@ && services@[k].version is None,
            decreases probed@.len() - i,
        {
            let ghost before = open_ports@;
            assert(probed@.subrange(0, i + 1).drop_last() =~= probed@.subrange(0, i as int));
            assert(port_open@.subrange(0, i + 1).drop_last() =~= port_open@.subrange(0, i as int));
            if port_open[i] {
                open_ports.push(probed[i]);
                services.push(identify_service(probed[i]));
            }
            i = i + 1;
        }
        assert(probed@.subrange(0, probed@.len() as int) =~= probed@);
        assert(port_open@.subrange(0, port_open@.len() as int) =~= port_open@);
    }
    let device_type = detect_device_type(open_ports.as_slice());
    ScanResult {
        ip: crate::fmt::ipv4_to_string(ip),
        is_alive,
        latency_ms,
        open_ports,
        hostname: if is_alive { hostname } else { None },
        mac_address: None,
        device_type,
        services,
        vendor: None,
        last_seen,
    }
}

/// Largest number of hosts probed at once.
pub const MAX_CONCURRENT_SCANS: usize = 50;

/// Whether the window of running probes is full, so one must finish before the next
/// starts.
pub fn window_full(in_flight: usize) -> (r: bool)
    ensures
        r == (in_flight >= MAX_CONCURRENT_SCANS),
{
    in_flight >= MAX_CONCURRENT_SCANS
}

} // verus!
