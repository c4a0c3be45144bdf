use vstd::prelude::*;
use vstd::string::*;
use crate::abi::{
    ContractEntry, EventEntry, FunctionEntry, decode_call_args, decode_log_fields, encode_hex,
    hex_of,
};
use crate::trace::{CallTrace, LogRecord};

verus! {

/// One rendered line of a trace tree, before styling. `prefix` holds the
/// branch connectors that stand left of the line.
pub enum TraceLine {
    /// A call into a known contract whose selector matched `function`.
    Call {
        prefix: String,
        cost: u64,
        contract: String,
        function: String,
        args: Option<Vec<String>>,
        success: bool,
    },
    /// A call that no known contract explains: address, selector and payload in hex.
    RawCall { prefix: String, address: String, selector: Option<String>, payload: String },
    /// A log that matched an event of the emitting contract.
    Event { prefix: String, name: String, fields: Option<String> },
    /// A log shown as it was recorded; `matched` tells whether the emitting
    /// frame belongs to a known contract.
    RawLog { prefix: String, topics: Vec<[u8; 32]>, data: Vec<u8>, matched: bool },
}

/// Why a trace could not be rendered.
#[derive(Clone, Copy, Debug, PartialEq, Eq, Structural)]
pub enum RenderError {
    /// A matched function's arguments or a matched event's fields did not decode.
    DecodeFailed,
}

/// What a line shows, the decoded arguments and fields left out.
pub enum LineShape {
    Call { prefix: Seq<char>, cost: u64, contract: Seq<char>, function: Seq<char>, success: bool },
    RawCall { prefix: Seq<char>, address: Seq<char>, selector: Option<Seq<char>>, payload: Seq<char> },
    Event { prefix: Seq<char>, name: Seq<char> },
    RawLog { prefix: Seq<char>, topics: Seq<[u8; 32]>, data: Seq<u8>, matched: bool },
}

impl View for TraceLine {
    type V = LineShape;

    open spec fn view(&self) -> LineShape {
        match self {
            TraceLine::Call { prefix, cost, contract, function, success, .. } => LineShape::Call {
                prefix: prefix@,
                cost: *cost,
                contract: contract@,
                function: function@,
                success: *success,
            },
            TraceLine::RawCall { prefix, address, selector, payload } => LineShape::RawCall {
                prefix: prefix@,
                address: address@,
                selector: match selector {
                    Some(s) => Some(s@),
                    None => None,
                },
                payload: payload@,
            },
            TraceLine::Event { prefix, name, .. } => LineShape::Event { prefix: prefix@, name: name@ },
            TraceLine::RawLog { prefix, topics, data, matched } => LineShape::RawLog {
                prefix: prefix@,
                topics: topics@,
                data: data@,
                matched: *matched,
            },
        }
    }
}

/// What each line of `lines` shows.
pub open spec fn shapes(lines: Seq<TraceLine>) -> Seq<LineShape> {
    lines.map_values(|l: TraceLine| l@)
}

/// Every matched function and event of `lines` carries its decoded text.
pub open spec fn all_decoded(lines: Seq<TraceLine>) -> bool {
    forall|i: int|
        0 <= i < lines.len() ==> match #[trigger] lines[i] {
            TraceLine::Call { args, .. } => args is Some,
            TraceLine::Event { fields, .. } => fields is Some,
            _ => true,
        }
}

/// Some line of `s` asks for decoding: a matched function or event.
pub open spec fn asks_decoding(s: Seq<LineShape>) -> bool {
    exists|i: int| 0 <= i < s.len() && (#[trigger] s[i] is Call || s[i] is Event)
}

pub open spec fn tee() -> Seq<char> {
    seq!['├', '─', ' ']
}

pub open spec fn elbow() -> Seq<char> {
    seq!['└', '─', ' ']
}

pub open spec fn bar() -> Seq<char> {
    seq!['|', ' ', ' ']
}

/// The prefix with each mid-branch connector turned into a continuation bar.
pub open spec fn continued(s: Seq<char>) -> Seq<char>
    decreases s.len(),
{
    if s.len() == 0 {
        s
    } else if s.len() >= 3 && s[0] == '├' && s[1] == '─' && s[2] == ' ' {
        bar() + continued(s.skip(3))
    } else {
        seq![s[0]] + continued(s.skip(1))
    }
}

/// The connector of an item: terminal for the last one, mid-branch before it.
pub open spec fn connector(last: bool) -> Seq<char> {
    if last {
        elbow()
    } else {
        tee()
    }
}

/// The index of the first contract from `i` on whose address is `addr`.
pub open spec fn first_contract(cs: Seq<ContractEntry>, addr: [u8; 20], i: int) -> Option<int>
    decreases cs.len() - i,
{
    if i < 0 || i >= cs.len() {
        None
    } else if cs[i].address@ == addr@ {
        Some(i)
    } else {
        first_contract(cs, addr, i + 1)
    }
}

pub open spec fn fn_matches(f: FunctionEntry, data: Seq<u8>) -> bool {
    data.len() >= 4 && f.selector@ == data.take(4)
}

pub open spec fn ev_matches(e: EventEntry, log: LogRecord) -> bool {
    log.topics@.len() > 0 && e.signature@ == log.topics@[0]@
}

/// Lines for the first `j` functions of `c`: one for each whose selector
/// opens the call data of `t`.
pub open spec fn call_shapes(t: CallTrace, c: ContractEntry, left: Seq<char>, j: int) -> Seq<LineShape>
    decreases j,
{
    if j <= 0 || j > c.functions@.len() {
        Seq::empty()
    } else {
        call_shapes(t, c, left, j - 1) + if fn_matches(c.functions@[j - 1], t.data@) {
            seq![
                LineShape::Call {
                    prefix: left,
                    cost: t.cost,
                    contract: c.name@,
                    function: c.functions@[j - 1].name@,
                    success: t.success,
                },
            ]
        } else {
            Seq::empty()
        }
    }
}

/// Lines for the first `j` events of `c` that match `log`.
pub open spec fn event_shapes(c: ContractEntry, log: LogRecord, p: Seq<char>, j: int) -> Seq<LineShape>
    decreases j,
{
    if j <= 0 || j > c.events@.len() {
        Seq::empty()
    } else {
        event_shapes(c, log, p, j - 1) + if ev_matches(c.events@[j - 1], log) {
            seq![LineShape::Event { prefix: p, name: c.events@[j - 1].name@ }]
        } else {
            Seq::empty()
        }
    }
}

/// Lines for one log: its matching events, else the log as recorded.
pub open spec fn log_shapes(c: Option<ContractEntry>, log: LogRecord, p: Seq<char>) -> Seq<LineShape> {
    let raw = |m: bool| LineShape::RawLog { prefix: p, topics: log.topics@, data: log.data@, matched: m };
    match c {
        Some(c) => {
            let ev = event_shapes(c, log, p, c.events@.len() as int);
            if ev.len() == 0 {
                seq![raw(true)]
            } else {
                ev
            }
        },
        None => seq![raw(false)],
    }
}

/// Lines for the first `k` logs of `t`.
pub open spec fn logs_shapes(t: CallTrace, c: Option<ContractEntry>, left: Seq<char>, k: int) -> Seq<LineShape>
    decreases k,
{
    if k <= 0 || k > t.logs@.len() {
        Seq::empty()
    } else {
        logs_shapes(t, c, left, k - 1) + log_shapes(
            c,
            t.logs@[k - 1],
            continued(left) + connector(k == t.logs@.len()),
        )
    }
}

/// The line of `t` itself: its matched functions, else its raw call.
pub open spec fn head_shapes(t: CallTrace, c: Option<ContractEntry>, left: Seq<char>) -> Seq<LineShape> {
    match c {
        Some(c) => call_shapes(t, c, left, c.functions@.len() as int),
        None => seq![
            LineShape::RawCall {
                prefix: left,
                address: hex_of(t.addr@),
                selector: if t.data@.len() >= 4 {
                    Some(hex_of(t.data@.take(4)))
                } else {
                    None
                },
                payload: if t.data@.len() >= 4 {
                    hex_of(t.data@.skip(4))
                } else {
                    hex_of(t.data@)
                },
            },
        ],
    }
}

pub open spec fn contract_of(t: CallTrace, cs: Seq<ContractEntry>) -> Option<ContractEntry> {
    match first_contract(cs, t.addr, 0) {
        Some(i) => Some(cs[i]),
        None => None,
    }
}

/// The lines of the subtree of `t`: its own line, then each child's lines
/// under an extended prefix, then its logs.
pub open spec fn render_shapes(t: CallTrace, cs: Seq<ContractEntry>, left: Seq<char>) -> Seq<LineShape>
    decreases t, t.inner@.len() + 1,
{
    head_shapes(t, contract_of(t, cs), left) + children_shapes(t, cs, left, t.inner@.len() as int)
        + logs_shapes(t, contract_of(t, cs), left, t.logs@.len() as int)
}

/// The lines of the first `k` children of `t`.
pub open spec fn children_shapes(t: CallTrace, cs: Seq<ContractEntry>, left: Seq<char>, k: int) -> Seq<LineShape>
    decreases t, k,
{
    if k <= 0 || k > t.inner@.len() {
        Seq::empty()
    } else {
        children_shapes(t, cs, left, k - 1) + render_shapes(
            t.inner@[k - 1],
            cs,
            continued(left) + connector(k == t.inner@.len() && t.logs@.len() == 0),
        )
    }
}

fn emit(out: &mut Vec<TraceLine>, l: TraceLine)
    ensures
        shapes(final(out)@) == shapes(old(out)@).push(l@),
{
    let ghost v = l@;
    out.push(l);
    assert(shapes(out@) =~= shapes(old(out)@).push(v));
}

fn copy_bytes(v: &Vec<u8>, from: usize, to: usize) -> (r: Vec<u8>)
    requires
        from <= to <= v@.len(),
    ensures
        r@ == v@.subrange(from as int, to as int),
{
    let mut r: Vec<u8> = Vec::new();
    let mut i: usize = from;
    while i < to
        invariant
            from <= i <= to <= v@.len(),
            r@ == v@.subrange(from as int, i as int),
        decreases to - i,
    {
        r.push(v[i]);
        i = i + 1;
        assert(r@ =~= v@.subrange(from as int, i as int));
    }
    r
}

fn copy_topics(v: &Vec<[u8; 32]>) -> (r: Vec<[u8; 32]>)
    ensures
        r@ == v@,
{
    let mut r: Vec<[u8; 32]> = Vec::new();
    let mut i: usize = 0;
    while i < v.len()
        invariant
            i <= v@.len(),
            r@ == v@.take(i as int),
        decreases v@.len() - i,
    {
        r.push(v[i]);
        i = i + 1;
        assert(r@ =~= v@.take(i as int));
    }
    assert(v@.take(v@.len() as int) =~= v@);
    r
}

/// The bytes of `a` are the first `a.len()` bytes of `b`.
fn starts_with(a: &[u8], b: &Vec<u8>) -> (r: bool)
    ensures
        r == (b@.len() >= a@.len() && a@ == b@.take(a@.len() as int)),
{
    if b.len() < a.len() {
        return false;
    }
    let mut i: usize = 0;
    while i < a.len()
        invariant
            i <= a@.len() <= b@.len(),
            a@.take(i as int) == b@.take(i as int),
        decreases a@.len() - i,
    {
        if a[i] != b[i] {
            assert(a@.take(a@.len() as int)[i as int] != b@.take(a@.len() as int)[i as int]);
            return false;
        }
        i = i + 1;
        assert(a@.take(i as int) =~= b@.take(i as int));
    }
    assert(a@.take(a@.len() as int) =~= a@);
    true
}

/// The prefix with each mid-branch connector turned into a continuation bar.
fn continue_prefix(left: &String) -> (r: String)
    ensures
        r@ == continued(left@),
{
    let s = left.as_str();
    let n = s.unicode_len();
    let mut out = String::new();
    let mut i: usize = 0;
    proof {
        assert(left@.skip(0) =~= left@);
    }
    while i < n
        invariant
            s@ == left@,
            n == left@.len(),
            i <= n,
            out@ + continued(left@.skip(i as int)) == continued(left@),
        decreases n - i,
    {
        let ghost rest = left@.skip(i as int);
        let ghost before = out@;
        if n - i >= 3 && s.get_char(i) == '├' && s.get_char(i + 1) == '─' && s.get_char(i + 2) == ' ' {
            out.append("|  ");
            proof {
                reveal_strlit("|  ");
                assert("|  "@ =~= bar());
                assert(rest[0] == '├' && rest[1] == '─' && rest[2] == ' ');
                assert(continued(rest) == bar() + continued(rest.skip(3)));
                assert(rest.skip(3) =~= left@.skip(i + 3));
                assert(out@ + continued(left@.skip(i + 3)) =~= before + (bar() + continued(rest.skip(3))));
            }
            i = i + 3;
        } else {
            let one = s.substring_char(i, i + 1);
            out.append(one);
            proof {
                assert(one@ =~= seq![rest[0]]);
                assert(continued(rest) == seq![rest[0]] + continued(rest.skip(1)));
                assert(rest.skip(1) =~= left@.skip(i + 1));
                assert(out@ + continued(left@.skip(i + 1)) =~= before + (seq![rest[0]] + continued(rest.skip(1))));
            }
            i = i + 1;
        }
    }
    proof {
        assert(left@.skip(n as int) =~= Seq::<char>::empty());
        assert(out@ + Seq::<char>::empty() =~= out@);
    }
    out
}

fn bytes_eq(a: &[u8], b: &[u8]) -> (r: bool)
    ensures
        r == (a@ == b@),
{
    if a.len() != b.len() {
        return false;
    }
    let mut i: usize = 0;
    while i < a.len()
        invariant
            i <= a@.len() == b@.len(),
            a@.take(i as int) == b@.take(i as int),
        decreases a@.len() - i,
    {
        if a[i] != b[i] {
            return false;
        }
        i = i + 1;
        assert(a@.take(i as int) =~= b@.take(i as int));
    }
    assert(a@.take(a@.len() as int) =~= a@);
    assert(b@.take(b@.len() as int) =~= b@);
    true
}

fn find_contract(cs: &Vec<ContractEntry>, addr: &[u8; 20]) -> (r: Option<usize>)
    ensures
        match r {
            Some(i) => first_contract(cs@, *addr, 0) == Some(i as int) && i < cs@.len(),
            None => first_contract(cs@, *addr, 0) is None,
        },
{
    let mut i: usize = 0;
    while i < cs.len()
        invariant
            i <= cs@.len(),
            first_contract(cs@, *addr, 0) == first_contract(cs@, *addr, i as int),
        decreases cs@.len() - i,
    {
        if bytes_eq(cs[i].address.as_slice(), addr.as_slice()) {
            return Some(i);
        }
        i = i + 1;
    }
    None
}

fn connector_str(last: bool) -> (r: &'static str)
    ensures
        r@ == connector(last),
{
    if last {
        proof {
            reveal_strlit("└─ ");
        }
        let r = "└─ ";
        assert(r@ =~= elbow());
        r
    } else {
        proof {
            reveal_strlit("├─ ");
        }
        let r = "├─ ";
        assert(r@ =~= tee());
        r
    }
}

fn branch(cont: &String, last: bool) -> (r: String)
    ensures
        r@ == cont@ + connector(last),
{
    let mut p = cont.clone();
    p.append(connector_str(last));
    p
}

impl CallTrace {
    fn render_head(&self, c: Option<&ContractEntry>, left: &String, out: &mut Vec<TraceLine>)
        ensures
            shapes(final(out)@) == shapes(old(out)@) + head_shapes(
                *self,
                match c {
                    Some(e) => Some(*e),
                    None => None,
                },
                left@,
            ),
    {
        match c {
            Some(ce) => {
                let mut j: usize = 0;
                while j < ce.functions.len()
                    invariant
                        j <= ce.functions@.len(),
                        shapes(out@) == shapes(old(out)@) + call_shapes(*self, *ce, left@, j as int),
                    decreases ce.functions@.len() - j,
                {
                    let ghost before = shapes(out@);
                    let f = &ce.functions[j];
                    if starts_with(f.selector.as_slice(), &self.data) {
                        let args = copy_bytes(&self.data, 4, self.data.len());
                        let decoded = decode_call_args(&f.abi, args.as_slice());
                        emit(
                            out,
                            TraceLine::Call {
                                prefix: left.clone(),
                                cost: self.cost,
                                contract: ce.name.clone(),
                                function: f.name.clone(),
                                args: decoded,
                                success: self.success,
                            },
                        );
                    }
                    j = j + 1;
                    assert(shapes(out@) =~= shapes(old(out)@) + call_shapes(*self, *ce, left@, j as int));
                }
                assert(shapes(out@) =~= shapes(old(out)@) + head_shapes(*self, Some(*ce), left@));
            },
            None => {
                let address = encode_hex(self.addr.as_slice());
                let n = self.data.len();
                let line = if n >= 4 {
                    let sel = copy_bytes(&self.data, 0, 4);
                    let rest = copy_bytes(&self.data, 4, n);
                    proof {
                        assert(sel@ =~= self.data@.take(4));
                        assert(rest@ =~= self.data@.skip(4));
                    }
                    TraceLine::RawCall {
                        prefix: left.clone(),
                        address,
                        selector: Some(encode_hex(sel.as_slice())),
                        payload: encode_hex(rest.as_slice()),
                    }
                } else {
                    TraceLine::RawCall {
                        prefix: left.clone(),
                        address,
                        selector: None,
                        payload: encode_hex(self.data.as_slice()),
                    }
                };
                emit(out, line);
                assert(shapes(out@) =~= shapes(old(out)@) + head_shapes(*self, None, left@));
            },
        }
    }

    fn render_log(log: &LogRecord, c: Option<&ContractEntry>, p: &String, out: &mut Vec<TraceLine>)
        ensures
            shapes(final(out)@) == shapes(old(out)@) + log_shapes(
                match c {
                    Some(e) => Some(*e),
                    None => None,
                },
                *log,
                p@,
            ),
    {
        match c {
            Some(ce) => {
                let mut found = false;
                let mut j: usize = 0;
                while j < ce.events.len()
                    invariant
                        j <= ce.events@.len(),
                        shapes(out@) == shapes(old(out)@) + event_shapes(*ce, *log, p@, j as int),
                        found == (event_shapes(*ce, *log, p@, j as int).len() > 0),
                    decreases ce.events@.len() - j,
                {
                    let e = &ce.events[j];
                    if log.topics.len() > 0 && bytes_eq(e.signature.as_slice(), log.topics[0].as_slice()) {
                        let fields = decode_log_fields(&e.abi, log);
                        emit(out, TraceLine::Event { prefix: p.clone(), name: e.name.clone(), fields });
                        found = true;
                    }
                    j = j + 1;
                    assert(shapes(out@) =~= shapes(old(out)@) + event_shapes(*ce, *log, p@, j as int));
                }
                if !found {
                    let line = TraceLine::RawLog {
                        prefix: p.clone(),
                        topics: copy_topics(&log.topics),
                        data: copy_bytes(&log.data, 0, log.data.len()),
                        matched: true,
                    };
                    proof {
                        assert(log.data@.subrange(0, log.data@.len() as int) =~= log.data@);
                    }
                    emit(out, line);
                }
                assert(shapes(out@) =~= shapes(old(out)@) + log_shapes(Some(*ce), *log, p@));
            },
            None => {
                let line = TraceLine::RawLog {
                    prefix: p.clone(),
                    topics: copy_topics(&log.topics),
                    data: copy_bytes(&log.data, 0, log.data.len()),
                    matched: false,
                };
                proof {
                    assert(log.data@.subrange(0, log.data@.len() as int) =~= log.data@);
                }
                emit(out, line);
                assert(shapes(out@) =~= shapes(old(out)@) + log_shapes(None, *log, p@));
            },
        }
    }

    fn render_into(&self, cs: &Vec<ContractEntry>, left: &String, out: &mut Vec<TraceLine>)
        ensures
            shapes(final(out)@) == shapes(old(out)@) + render_shapes(*self, cs@, left@),
        decreases *self,
    {
        let found = find_contract(cs, &self.addr);
        let c: Option<&ContractEntry> = match found {
            Some(i) => Some(&cs[i]),
            None => None,
        };
        let ghost cg = contract_of(*self, cs@);
        assert(cg == match c {
            Some(e) => Some(*e),
            None => None,
        });
        self.render_head(c, left, out);
        let ghost after_head = shapes(out@);
        let cont = continue_prefix(left);
        let n = self.inner.len();
        let mut i: usize = 0;
        while i < n
            invariant
                n == self.inner@.len(),
                i <= n,
                cont@ == continued(left@),
                shapes(out@) == after_head + children_shapes(*self, cs@, left@, i as int),
            decreases n - i,
        {
            let p = branch(&cont, i + 1 == n && self.logs.len() == 0);
            self.inner[i].render_into(cs, &p, out);
            i = i + 1;
            assert(shapes(out@) =~= after_head + children_shapes(*self, cs@, left@, i as int));
        }
        let ghost after_children = shapes(out@);
        let m = self.logs.len();
        let mut k: usize = 0;
        while k < m
            invariant
                m == self.logs@.len(),
                k <= m,
                cont@ == continued(left@),
                cg == match c {
                    Some(e) => Some(*e),
                    None => None,
                },
                shapes(out@) == after_children + logs_shapes(*self, cg, left@, k as int),
            decreases m - k,
        {
            let p = branch(&cont, k + 1 == m);
            CallTrace::render_log(&self.logs[k], c, &p, out);
            k = k + 1;
            assert(shapes(out@) =~= after_children + logs_shapes(*self, cg, left@, k as int));
        }
        assert(shapes(out@) =~= shapes(old(out)@) + render_shapes(*self, cs@, left@));
    }

    /// Renders the tree as lines, `left` standing before the root's line:
    /// each frame's matched functions (else its raw call), then its children
    /// under extended prefixes, then its logs. Fails when a matched function's
    /// arguments or a matched event's fields do not decode.
    pub fn pretty_print(&self, contracts: &Vec<ContractEntry>, left: String) -> (r: Result<Vec<TraceLine>, RenderError>)
        ensures
            r is Ok ==> shapes(r->Ok_0@) == render_shapes(*self, contracts@, left@) && all_decoded(r->Ok_0@),
            r is Err ==> r->Err_0 == RenderError::DecodeFailed && asks_decoding(render_shapes(*self, contracts@, left@)),
            !asks_decoding(render_shapes(*self, contracts@, left@)) ==> r is Ok,
    {
        let mut out: Vec<TraceLine> = Vec::new();
        self.render_into(contracts, &left, &mut out);
        proof {
            assert(shapes(Seq::<TraceLine>::empty()) =~= Seq::<LineShape>::empty());
            assert(Seq::<LineShape>::empty() + render_shapes(*self, contracts@, left@) =~= render_shapes(*self, contracts@, left@));
        }
        let mut i: usize = 0;
        while i < out.len()
            invariant
                i <= out@.len(),
                shapes(out@) == render_shapes(*self, contracts@, left@),
                forall|j: int| 0 <= j < i ==> match #[trigger] out@[j] {
                    TraceLine::Call { args, .. } => args is Some,
                    TraceLine::Event { fields, .. } => fields is Some,
                    _ => true,
                },
            decreases out@.len() - i,
        {
            let bad = match &out[i] {
                TraceLine::Call { args, .. } => args.is_none(),
                TraceLine::Event { fields, .. } => fields.is_none(),
                _ => false,
            };
            if bad {
                proof {
                    let sh = render_shapes(*self, contracts@, left@);
                    assert(sh[i as int] == out@[i as int]@);
                    assert(sh[i as int] is Call || sh[i as int] is Event);
                }
                return Err(RenderError::DecodeFailed);
            }
            i = i + 1;
        }
        Ok(out)
    }
}

} // verus!
