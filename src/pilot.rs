use vstd::prelude::*;

verus! {

/// What a command asks of a bulb.
#[derive(Clone, Copy, Debug, PartialEq, Eq)]
pub enum Method {
    SetPilot,
    GetDevInfo,
}

/// The name of a method on the wire.
pub open spec fn method_name(m: Method) -> Seq<char> {
    match m {
        Method::SetPilot => "setPilot"@,
        Method::GetDevInfo => "getDevInfo"@,
    }
}

impl Method {
    pub fn to_string(&self) -> (r: String)
        ensures
            r@ == method_name(*self),
    {
        match self {
            Method::SetPilot => String::from_str("setPilot"),
            Method::GetDevInfo => String::from_str("getDevInfo"),
        }
    }
}

/// The character of a decimal digit.
pub open spec fn digit_char(d: nat) -> char {
    if d == 0 { '0' }
    else if d == 1 { '1' }
    else if d == 2 { '2' }
    else if d == 3 { '3' }
    else if d == 4 { '4' }
    else if d == 5 { '5' }
    else if d == 6 { '6' }
    else if d == 7 { '7' }
    else if d == 8 { '8' }
    else { '9' }
}

/// The decimal text of `n`, without leading zeros.
pub open spec fn decimal(n: nat) -> Seq<char>
    decreases n,
{
    if n < 10 {
        seq![digit_char(n)]
    } else {
        decimal(n / 10).push(digit_char(n % 10))
    }
}

fn digit_text(d: u32) -> (r: &'static str)
    requires
        d < 10,
    ensures
        r@ == seq![digit_char(d as nat)],
{
    proof {
        reveal_strlit("0");
        reveal_strlit("1");
        reveal_strlit("2");
        reveal_strlit("3");
        reveal_strlit("4");
        reveal_strlit("5");
        reveal_strlit("6");
        reveal_strlit("7");
        reveal_strlit("8");
        reveal_strlit("9");
    }
    let r = if d == 0 { "0" }
    else if d == 1 { "1" }
    else if d == 2 { "2" }
    else if d == 3 { "3" }
    else if d == 4 { "4" }
    else if d == 5 { "5" }
    else if d == 6 { "6" }
    else if d == 7 { "7" }
    else if d == 8 { "8" }
    else { "9" };
    assert(r@ =~= seq![digit_char(d as nat)]);
    r
}

/// Appends the decimal text of `n` to `s`.
pub fn push_decimal(s: &mut String, n: u32)
    ensures
        final(s)@ == old(s)@ + decimal(n as nat),
    decreases n,
{
    if n >= 10 {
        push_decimal(s, n / 10);
    }
    s.append(digit_text(n % 10));
}


/// The text of a boolean on the wire.
pub open spec fn flag_text(b: bool) -> Seq<char> {
    if b { "true"@ } else { "false"@ }
}

/// One `"key":value` member of a JSON object, the value already rendered.
pub open spec fn member_text(f: (Seq<char>, Seq<char>)) -> Seq<char> {
    "\""@ + f.0 + "\":"@ + f.1
}

/// Members joined by commas, in order.
pub open spec fn join_members(fs: Seq<(Seq<char>, Seq<char>)>) -> Seq<char>
    decreases fs.len(),
{
    if fs.len() == 0 {
        Seq::empty()
    } else if fs.len() == 1 {
        member_text(fs[0])
    } else {
        join_members(fs.drop_last()) + ","@ + member_text(fs.last())
    }
}

/// A desired lighting state of a bulb, or a request for its identity.
#[derive(Clone, Copy, Debug)]
pub struct Pilot {
    pub method: Method,
    /// On or off.
    pub state: bool,
    /// Red, green and blue channel bytes.
    pub rgb: Option<(u8, u8, u8)>,
    /// A scene id of the bulb's firmware.
    pub scene: Option<u32>,
    /// Brightness in percent.
    pub brightness: u8,
}

/// The dimming percent sent for a brightness: held within 1 to 100.
pub open spec fn dimming_of(brightness: u8) -> nat {
    if brightness < 1 {
        1
    } else if brightness > 100 {
        100
    } else {
        brightness as nat
    }
}

/// The members of `params` for a `setPilot` command, in the order they are sent:
/// `state` always, `dimming` only when on, `r`, `g`, `b` only with a colour,
/// `sceneId` only with a scene.
pub open spec fn param_members(p: Pilot) -> Seq<(Seq<char>, Seq<char>)> {
    let with_state = seq![("state"@, flag_text(p.state))];
    let with_dimming = if p.state {
        with_state.push(("dimming"@, decimal(dimming_of(p.brightness))))
    } else {
        with_state
    };
    let with_rgb = match p.rgb {
        Some((r, g, b)) => with_dimming.push(("r"@, decimal(r as nat))).push(
            ("g"@, decimal(g as nat)),
        ).push(("b"@, decimal(b as nat))),
        None => with_dimming,
    };
    match p.scene {
        Some(id) => with_rgb.push(("sceneId"@, decimal(id as nat))),
        None => with_rgb,
    }
}

/// The single-line JSON text of the command for a pilot.
pub open spec fn wire_text(p: Pilot) -> Seq<char> {
    match p.method {
        Method::GetDevInfo => "{\"method\":\""@ + method_name(p.method) + "\"}"@,
        Method::SetPilot => "{\"method\":\""@ + method_name(p.method) + "\",\"params\":{"@
            + join_members(param_members(p)) + "}}"@,
    }
}

/// Appends the key of a member, preceded by a comma unless it is the first.
fn push_key(s: &mut String, key: &str, first: bool)
    ensures
        final(s)@ == old(s)@ + (if first { Seq::empty() } else { ","@ }) + "\""@ + key@ + "\":"@,
{
    let ghost start = s@;
    if !first {
        s.append(",");
    }
    s.append("\"");
    s.append(key);
    s.append("\":");
    assert(s@ =~= start + (if first { Seq::empty() } else { ","@ }) + "\""@ + key@ + "\":"@);
}

proof fn lemma_join_push(fs: Seq<(Seq<char>, Seq<char>)>, f: (Seq<char>, Seq<char>))
    requires
        fs.len() >= 1,
    ensures
        join_members(fs.push(f)) == join_members(fs) + ","@ + member_text(f),
{
    assert(fs.push(f).drop_last() =~= fs);
}

/// Appends a member with a decimal value after earlier members.
fn push_number_member(
    s: &mut String,
    key: &str,
    n: u32,
    Ghost(head): Ghost<Seq<char>>,
    Ghost(fs): Ghost<Seq<(Seq<char>, Seq<char>)>>,
)
    requires
        fs.len() >= 1,
        old(s)@ == head + join_members(fs),
    ensures
        final(s)@ == head + join_members(fs.push((key@, decimal(n as nat)))),
{
    push_key(s, key, false);
    push_decimal(s, n);
    proof {
        lemma_join_push(fs, (key@, decimal(n as nat)));
    }
    assert(s@ =~= head + join_members(fs.push((key@, decimal(n as nat)))));
}

impl Pilot {
    /// A pilot for `method` that turns the bulb on at full brightness, with no
    /// colour and no scene.
    pub fn new(method: Method) -> (p: Pilot)
        ensures
            p == (Pilot { method, state: true, rgb: None, scene: None, brightness: 100 }),
    {
        Pilot { method, state: true, rgb: None, scene: None, brightness: 100 }
    }

    pub fn set_method(&mut self, method: Method)
        ensures
            *final(self) == (Pilot { method, ..*old(self) }),
    {
        self.method = method;
    }

    pub fn set_state(&mut self, state: bool)
        ensures
            *final(self) == (Pilot { state, ..*old(self) }),
    {
        self.state = state;
    }

    /// Sets the colour from its red, green and blue bytes.
    pub fn set_rgb(&mut self, r: u8, g: u8, b: u8)
        ensures
            *final(self) == (Pilot { rgb: Some((r, g, b)), ..*old(self) }),
    {
        self.rgb = Some((r, g, b));
    }

    /// Sets the scene by its id.
    pub fn set_scene(&mut self, scene: u32)
        ensures
            *final(self) == (Pilot { scene: Some(scene), ..*old(self) }),
    {
        self.scene = Some(scene);
    }

    /// Sets the brightness, in percent.
    pub fn set_brightness(&mut self, brightness: u8)
        ensures
            *final(self) == (Pilot { brightness, ..*old(self) }),
    {
        self.brightness = brightness;
    }

    /// The JSON text sent to a bulb for this pilot.
    pub fn build(&self) -> (r: String)
        ensures
            r@ == wire_text(*self),
    {
        let mut s = String::from_str("{\"method\":\"");
        let name = self.method.to_string();
        s.append(name.as_str());
        match self.method {
            Method::GetDevInfo => {
                s.append("\"}");
                assert(s@ =~= wire_text(*self));
            },
            Method::SetPilot => {
                s.append("\",\"params\":{");
                let ghost head = s@;
                push_key(&mut s, "state", true);
                if self.state {
                    s.append("true");
                } else {
                    s.append("false");
                }
                let ghost mut fs = seq![("state"@, flag_text(self.state))];
                assert(s@ =~= head + join_members(fs));
                if self.state {
                    let dimming: u8 = if self.brightness < 1 {
                        1
                    } else if self.brightness > 100 {
                        100
                    } else {
                        self.brightness
                    };
                    push_number_member(&mut s, "dimming", dimming as u32, Ghost(head), Ghost(fs));
                    proof {
                        fs = fs.push(("dimming"@, decimal(dimming_of(self.brightness))));
                    }
                }
                match self.rgb {
                    Some((r, g, b)) => {
                        push_number_member(&mut s, "r", r as u32, Ghost(head), Ghost(fs));
                        proof {
                            fs = fs.push(("r"@, decimal(r as nat)));
                        }
                        push_number_member(&mut s, "g", g as u32, Ghost(head), Ghost(fs));
                        proof {
                            fs = fs.push(("g"@, decimal(g as nat)));
                        }
                        push_number_member(&mut s, "b", b as u32, Ghost(head), Ghost(fs));
                        proof {
                            fs = fs.push(("b"@, decimal(b as nat)));
                        }
                    },
                    None => {},
                }
                match self.scene {
                    Some(id) => {
                        push_number_member(&mut s, "sceneId", id, Ghost(head), Ghost(fs));
                        proof {
                            fs = fs.push(("sceneId"@, decimal(id as nat)));
                        }
                    },
                    None => {},
                }
                assert(fs == param_members(*self));
                s.append("}}");
                assert(s@ =~= wire_text(*self));
            },
        }
        s
    }
}


impl Default for Pilot {
    fn default() -> (p: Pilot)
        ensures
            p == (Pilot { method: Method::SetPilot, state: true, rgb: None, scene: None, brightness: 100 }),
    {
        Pilot::new(Method::SetPilot)
    }
}

/// The value of a decimal digit character.
pub open spec fn digit_value(c: char) -> nat {
    if c == '1' { 1 }
    else if c == '2' { 2 }
    else if c == '3' { 3 }
    else if c == '4' { 4 }
    else if c == '5' { 5 }
    else if c == '6' { 6 }
    else if c == '7' { 7 }
    else if c == '8' { 8 }
    else if c == '9' { 9 }
    else { 0 }
}

/// The number that a decimal text stands for.
pub open spec fn decimal_value(t: Seq<char>) -> nat
    decreases t.len(),
{
    if t.len() == 0 {
        0
    } else {
        decimal_value(t.drop_last()) * 10 + digit_value(t.last())
    }
}

/// The rendered value of the member `key`, the last one if several.
pub open spec fn member_value(fs: Seq<(Seq<char>, Seq<char>)>, key: Seq<char>) -> Option<Seq<char>>
    decreases fs.len(),
{
    if fs.len() == 0 {
        None
    } else if fs.last().0 == key {
        Some(fs.last().1)
    } else {
        member_value(fs.drop_last(), key)
    }
}

/// The number held by the member `key`, if it is there.
pub open spec fn number_member(fs: Seq<(Seq<char>, Seq<char>)>, key: Seq<char>) -> Option<nat> {
    match member_value(fs, key) {
        Some(t) => Some(decimal_value(t)),
        None => None,
    }
}

/// What a lighting command asks of a bulb.
pub ghost struct Intent {
    pub state: bool,
    pub dimming: Option<nat>,
    pub rgb: Option<(nat, nat, nat)>,
    pub scene: Option<nat>,
}

/// What a pilot asks of a bulb: its dimming only when it turns the bulb on.
pub open spec fn intent_of(p: Pilot) -> Intent {
    Intent {
        state: p.state,
        dimming: if p.state { Some(dimming_of(p.brightness)) } else { None },
        rgb: match p.rgb {
            Some((r, g, b)) => Some((r as nat, g as nat, b as nat)),
            None => None,
        },
        scene: match p.scene {
            Some(id) => Some(id as nat),
            None => None,
        },
    }
}

/// What a bulb reads from the members of `params`.
pub open spec fn read_params(fs: Seq<(Seq<char>, Seq<char>)>) -> Intent {
    Intent {
        state: member_value(fs, "state"@) == Some("true"@),
        dimming: number_member(fs, "dimming"@),
        rgb: match (number_member(fs, "r"@), number_member(fs, "g"@), number_member(fs, "b"@)) {
            (Some(r), Some(g), Some(b)) => Some((r, g, b)),
            _ => None,
        },
        scene: number_member(fs, "sceneId"@),
    }
}

proof fn lemma_decimal_value(n: nat)
    ensures
        decimal_value(decimal(n)) == n,
    decreases n,
{
    if n >= 10 {
        lemma_decimal_value(n / 10);
        assert(decimal(n).drop_last() =~= decimal(n / 10));
        assert(decimal(n).last() == digit_char(n % 10));
        assert(digit_value(digit_char(n % 10)) == n % 10);
        assert((n / 10) * 10 + n % 10 == n) by (nonlinear_arith);
    } else {
        assert(seq![digit_char(n)].drop_last() =~= Seq::<char>::empty());
        assert(decimal(n).last() == digit_char(n));
        assert(decimal_value(Seq::<char>::empty()) == 0);
    }
}

proof fn lemma_member_pushes(fs: Seq<(Seq<char>, Seq<char>)>, f: (Seq<char>, Seq<char>))
    ensures
        forall|key: Seq<char>|
            #[trigger] member_value(fs.push(f), key) == if f.0 == key {
                Some(f.1)
            } else {
                member_value(fs, key)
            },
{
    assert(fs.push(f).drop_last() =~= fs);
}

/// Splits `t` at each `sep`, reading from the right; `cur` is the part of the
/// last piece already read.
pub open spec fn split_from(t: Seq<char>, sep: char, cur: Seq<char>) -> Seq<Seq<char>>
    decreases t.len(),
{
    if t.len() == 0 {
        seq![cur]
    } else if t.last() == sep {
        split_from(t.drop_last(), sep, Seq::empty()).push(cur)
    } else {
        split_from(t.drop_last(), sep, seq![t.last()] + cur)
    }
}

/// The pieces of `t` between the occurrences of `sep`.
pub open spec fn split_on(t: Seq<char>, sep: char) -> Seq<Seq<char>> {
    split_from(t, sep, Seq::empty())
}

/// The key and the value text of one member's text `"key":value`.
pub open spec fn read_member(m: Seq<char>) -> (Seq<char>, Seq<char>) {
    let parts = split_on(m, ':');
    (parts[0].subrange(1, parts[0].len() - 1), parts.last())
}

/// What a bulb reads from the text of a `params` object's members.
pub open spec fn read_params_text(t: Seq<char>) -> Intent {
    read_params(split_on(t, ',').map_values(|m: Seq<char>| read_member(m)))
}

/// `t` holds no `c`.
pub open spec fn lacks(t: Seq<char>, c: char) -> bool {
    forall|i: int| 0 <= i < t.len() ==> t[i] != c
}

proof fn lemma_split_tail(t: Seq<char>, u: Seq<char>, sep: char, cur: Seq<char>)
    requires
        lacks(u, sep),
    ensures
        split_from(t + u, sep, cur) == split_from(t, sep, u + cur),
    decreases u.len(),
{
    if u.len() == 0 {
        assert(t + u =~= t);
        assert(u + cur =~= cur);
    } else {
        let w = u.drop_last();
        assert((t + u).drop_last() =~= t + w);
        assert((t + u).last() == u.last());
        assert(lacks(w, sep));
        lemma_split_tail(t, w, sep, seq![u.last()] + cur);
        assert(w + (seq![u.last()] + cur) =~= u + cur);
    }
}

proof fn lemma_split_join(a: Seq<char>, u: Seq<char>, sep: char)
    requires
        lacks(u, sep),
    ensures
        split_on(a + seq![sep] + u, sep) == split_on(a, sep).push(u),
{
    lemma_split_tail(a + seq![sep], u, sep, Seq::empty());
    assert(u + Seq::<char>::empty() =~= u);
    assert((a + seq![sep]).drop_last() =~= a);
}

proof fn lemma_split_whole(u: Seq<char>, sep: char)
    requires
        lacks(u, sep),
    ensures
        split_on(u, sep) == seq![u],
{
    lemma_split_tail(Seq::empty(), u, sep, Seq::empty());
    assert(Seq::<char>::empty() + u =~= u);
    assert(u + Seq::<char>::empty() =~= u);
}

proof fn lemma_decimal_lacks(n: nat, c: char)
    requires
        c == ',' || c == ':',
    ensures
        lacks(decimal(n), c),
    decreases n,
{
    if n >= 10 {
        lemma_decimal_lacks(n / 10, c);
    }
}

/// Keys and values that hold no comma and no colon.
pub open spec fn plain_members(fs: Seq<(Seq<char>, Seq<char>)>) -> bool {
    forall|i: int|
        0 <= i < fs.len() ==> lacks(#[trigger] fs[i].0, ',') && lacks(fs[i].0, ':') && lacks(fs[i].1, ',')
            && lacks(fs[i].1, ':')
}

proof fn lemma_read_member(f: (Seq<char>, Seq<char>))
    requires
        lacks(f.0, ','),
        lacks(f.0, ':'),
        lacks(f.1, ','),
        lacks(f.1, ':'),
    ensures
        lacks(member_text(f), ','),
        read_member(member_text(f)) == f,
{
    reveal_strlit("\"");
    reveal_strlit("\":");
    let quoted = "\""@ + f.0 + "\""@;
    assert(member_text(f) =~= quoted + seq![':'] + f.1);
    assert(lacks(quoted, ':'));
    lemma_split_join(quoted, f.1, ':');
    lemma_split_whole(quoted, ':');
    assert(quoted.subrange(1, quoted.len() - 1) =~= f.0);
}

proof fn lemma_read_members(fs: Seq<(Seq<char>, Seq<char>)>)
    requires
        fs.len() >= 1,
        plain_members(fs),
    ensures
        split_on(join_members(fs), ',').map_values(|m: Seq<char>| read_member(m)) == fs,
    decreases fs.len(),
{
    lemma_read_member(fs.last());
    if fs.len() == 1 {
        lemma_split_whole(member_text(fs[0]), ',');
        assert(seq![member_text(fs[0])].map_values(|m: Seq<char>| read_member(m)) =~= fs);
    } else {
        let rest = fs.drop_last();
        assert(plain_members(rest)) by {
            assert forall|i: int| 0 <= i < rest.len() implies lacks(#[trigger] rest[i].0, ',') && lacks(
                rest[i].0,
                ':',
            ) && lacks(rest[i].1, ',') && lacks(rest[i].1, ':') by {
                assert(rest[i] == fs[i]);
            }
        }
        lemma_read_members(rest);
        assert(join_members(fs) =~= join_members(rest) + seq![','] + member_text(fs.last())) by {
            reveal_strlit(",");
        }
        lemma_split_join(join_members(rest), member_text(fs.last()), ',');
        let pieces = split_on(join_members(rest), ',');
        let last = member_text(fs.last());
        assert(pieces.push(last).map_values(|m: Seq<char>| read_member(m)) =~= pieces.map_values(
            |m: Seq<char>| read_member(m),
        ).push(read_member(last)));
        assert(rest.push(fs.last()) =~= fs);
    }
}

proof fn lemma_plain_push(fs: Seq<(Seq<char>, Seq<char>)>, key: Seq<char>, value: Seq<char>)
    requires
        plain_members(fs),
        lacks(key, ','),
        lacks(key, ':'),
        lacks(value, ','),
        lacks(value, ':'),
    ensures
        plain_members(fs.push((key, value))),
{
    let out = fs.push((key, value));
    assert forall|i: int| 0 <= i < out.len() implies lacks(#[trigger] out[i].0, ',') && lacks(
        out[i].0,
        ':',
    ) && lacks(out[i].1, ',') && lacks(out[i].1, ':') by {
        if i < fs.len() {
            assert(out[i] == fs[i]);
        }
    }
}

proof fn lemma_number_plain(fs: Seq<(Seq<char>, Seq<char>)>, key: Seq<char>, n: nat)
    requires
        plain_members(fs),
        lacks(key, ','),
        lacks(key, ':'),
    ensures
        plain_members(fs.push((key, decimal(n)))),
{
    lemma_decimal_lacks(n, ',');
    lemma_decimal_lacks(n, ':');
    lemma_plain_push(fs, key, decimal(n));
}

proof fn lemma_params_plain(p: Pilot)
    ensures
        plain_members(param_members(p)),
{
    reveal_strlit("state");
    reveal_strlit("dimming");
    reveal_strlit("r");
    reveal_strlit("g");
    reveal_strlit("b");
    reveal_strlit("sceneId");
    reveal_strlit("true");
    reveal_strlit("false");
    let s0 = seq![("state"@, flag_text(p.state))];
    assert(Seq::<(Seq<char>, Seq<char>)>::empty().push(("state"@, flag_text(p.state))) =~= s0);
    assert(lacks(flag_text(p.state), ',') && lacks(flag_text(p.state), ':'));
    lemma_plain_push(Seq::empty(), "state"@, flag_text(p.state));
    let s1 = if p.state {
        s0.push(("dimming"@, decimal(dimming_of(p.brightness))))
    } else {
        s0
    };
    if p.state {
        lemma_number_plain(s0, "dimming"@, dimming_of(p.brightness));
    }
    let s2 = match p.rgb {
        Some((r, g, b)) => s1.push(("r"@, decimal(r as nat))).push(("g"@, decimal(g as nat))).push(
            ("b"@, decimal(b as nat)),
        ),
        None => s1,
    };
    match p.rgb {
        Some((r, g, b)) => {
            lemma_number_plain(s1, "r"@, r as nat);
            lemma_number_plain(s1.push(("r"@, decimal(r as nat))), "g"@, g as nat);
            lemma_number_plain(
                s1.push(("r"@, decimal(r as nat))).push(("g"@, decimal(g as nat))),
                "b"@,
                b as nat,
            );
        },
        None => {},
    }
    match p.scene {
        Some(id) => {
            lemma_number_plain(s2, "sceneId"@, id as nat);
        },
        None => {},
    }
}

/// A `setPilot` command says exactly what its pilot asks: the text sent is the
/// `params` members inside the command's envelope, and read back from the text
/// of those members, the state, the dimming (present only when on), the colour
/// and the scene are those of the pilot.
pub proof fn wire_round_trip(p: Pilot)
    requires
        p.method == Method::SetPilot,
    ensures
        wire_text(p) == "{\"method\":\""@ + "setPilot"@ + "\",\"params\":{"@ + join_members(
            param_members(p),
        ) + "}}"@,
        read_params_text(join_members(param_members(p))) == intent_of(p),
{
    reveal_strlit("state");
    reveal_strlit("dimming");
    reveal_strlit("r");
    reveal_strlit("g");
    reveal_strlit("b");
    reveal_strlit("sceneId");
    reveal_strlit("true");
    reveal_strlit("false");
    let fs = param_members(p);
    let s0 = seq![("state"@, flag_text(p.state))];
    let s1 = if p.state {
        s0.push(("dimming"@, decimal(dimming_of(p.brightness))))
    } else {
        s0
    };
    let s2 = match p.rgb {
        Some((r, g, b)) => s1.push(("r"@, decimal(r as nat))).push(("g"@, decimal(g as nat))).push(
            ("b"@, decimal(b as nat)),
        ),
        None => s1,
    };
    lemma_member_pushes(Seq::empty(), ("state"@, flag_text(p.state)));
    assert(Seq::<(Seq<char>, Seq<char>)>::empty().push(("state"@, flag_text(p.state))) =~= s0);
    if p.state {
        lemma_member_pushes(s0, ("dimming"@, decimal(dimming_of(p.brightness))));
    }
    match p.rgb {
        Some((r, g, b)) => {
            lemma_member_pushes(s1, ("r"@, decimal(r as nat)));
            lemma_member_pushes(s1.push(("r"@, decimal(r as nat))), ("g"@, decimal(g as nat)));
            lemma_member_pushes(
                s1.push(("r"@, decimal(r as nat))).push(("g"@, decimal(g as nat))),
                ("b"@, decimal(b as nat)),
            );
        },
        None => {},
    }
    match p.scene {
        Some(id) => {
            lemma_member_pushes(s2, ("sceneId"@, decimal(id as nat)));
        },
        None => {},
    }
    lemma_decimal_value(dimming_of(p.brightness));
    match p.rgb {
        Some((r, g, b)) => {
            lemma_decimal_value(r as nat);
            lemma_decimal_value(g as nat);
            lemma_decimal_value(b as nat);
        },
        None => {},
    }
    match p.scene {
        Some(id) => {
            lemma_decimal_value(id as nat);
        },
        None => {},
    }
    let got = read_params(fs);
    let want = intent_of(p);
    assert("true"@ != "false"@) by {
        assert("true"@.len() != "false"@.len());
    }
    let short = seq!["r"@, "g"@, "b"@];
    let long = seq!["state"@, "dimming"@, "sceneId"@];
    assert("state"@ != "dimming"@ && "state"@ != "sceneId"@ && "dimming"@ != "sceneId"@) by {
        assert("state"@.len() != "dimming"@.len());
        assert("dimming"@[0] != "sceneId"@[0]);
    }
    assert("r"@ != "g"@ && "r"@ != "b"@ && "g"@ != "b"@) by {
        assert("r"@[0] != "g"@[0] && "r"@[0] != "b"@[0] && "g"@[0] != "b"@[0]);
    }
    assert(forall|i: int, j: int| 0 <= i < 3 && 0 <= j < 3 ==> #[trigger] short[i] != #[trigger] long[j])
        by {
        assert forall|i: int, j: int| 0 <= i < 3 && 0 <= j < 3 implies #[trigger] short[i]
            != #[trigger] long[j] by {
            assert(short[i].len() == 1);
            assert(long[j].len() > 1);
        }
    }
    assert(short[0] == "r"@ && short[1] == "g"@ && short[2] == "b"@);
    assert(long[0] == "state"@ && long[1] == "dimming"@ && long[2] == "sceneId"@);
    assert(member_value(s0, "state"@) == Some(flag_text(p.state)));
    assert(member_value(s1, "state"@) == Some(flag_text(p.state)));
    assert(member_value(s2, "state"@) == Some(flag_text(p.state)));
    assert(member_value(fs, "state"@) == Some(flag_text(p.state)));
    assert(got.state == want.state);
    assert(got.dimming == want.dimming);
    assert(got.rgb == want.rgb);
    assert(got.scene == want.scene);
    lemma_params_plain(p);
    lemma_read_members(fs);
}

} // verus!
