//! Targets: named backends, parsed from `NAME:TYPE:HOST:PORT`, and the
//! registry that maps names to them.
use std::sync::Arc;
use vstd::prelude::*;

verus! {

/// How bytes from the backend reach the client.
#[derive(Debug, Clone, Copy, PartialEq, Eq, Structural)]
pub enum TargetType {
    /// Direct TCP passthrough.
    Raw,
    /// Telnet, with IAC sequences filtered out and answered.
    Telnet,
}

/// A named backend endpoint.
#[derive(Debug, Clone)]
pub struct Target {
    pub name: String,
    pub target_type: TargetType,
    pub address: String,
}

/// Why a target specification was refused.
#[derive(Debug, Clone, Copy, PartialEq, Eq, Structural)]
pub enum ParseError {
    /// The specification does not split into four colon-separated fields.
    Malformed,
    /// The mode field is neither `raw` nor `telnet`, in any case.
    UnknownMode,
}

impl ParseError {
    pub fn message(&self) -> (r: &'static str) {
        match self {
            ParseError::Malformed => "malformed target specification, expected NAME:TYPE:HOST:PORT",
            ParseError::UnknownMode => "unknown target type, expected 'raw' or 'telnet'",
        }
    }
}

/// What `str::to_lowercase` makes of `s`.
pub uninterp spec fn lower_of(s: Seq<char>) -> Seq<char>;

/// Relies on `str::to_lowercase`: the lower-case form of `s`, which depends on
/// its characters alone.
#[verifier::external_body]
fn lowercase(s: &str) -> (r: String)
    ensures
        r@ == lower_of(s@),
{
    s.to_lowercase()
}

/// Relies on `Arc::clone`: a new handle on the same value.
#[verifier::external_body]
fn share(t: &Arc<Target>) -> (r: Arc<Target>)
    ensures
        *r == **t,
{
    Arc::clone(t)
}

/// Index of the first ':' in `s` at or after `from`, or `s.len()` if none.
pub open spec fn colon_from(s: Seq<char>, from: int) -> int
    decreases s.len() - from,
{
    if from < 0 || from >= s.len() {
        s.len() as int
    } else if s[from] == ':' {
        from
    } else {
        colon_from(s, from + 1)
    }
}

pub open spec fn first_sep(s: Seq<char>) -> int {
    colon_from(s, 0)
}

pub open spec fn second_sep(s: Seq<char>) -> int {
    colon_from(s, first_sep(s) + 1)
}

pub open spec fn third_sep(s: Seq<char>) -> int {
    colon_from(s, second_sep(s) + 1)
}

/// `s` holds at least three colons, so splitting it at its first three gives
/// four fields; the last one keeps any further colons.
pub open spec fn has_four_fields(s: Seq<char>) -> bool {
    third_sep(s) < s.len()
}

pub open spec fn name_field(s: Seq<char>) -> Seq<char> {
    s.subrange(0, first_sep(s))
}

pub open spec fn mode_field(s: Seq<char>) -> Seq<char> {
    s.subrange(first_sep(s) + 1, second_sep(s))
}

pub open spec fn host_field(s: Seq<char>) -> Seq<char> {
    s.subrange(second_sep(s) + 1, third_sep(s))
}

pub open spec fn port_field(s: Seq<char>) -> Seq<char> {
    s.subrange(third_sep(s) + 1, s.len() as int)
}

/// The target type that a lower-case mode token names.
pub open spec fn mode_of(token: Seq<char>) -> Option<TargetType> {
    if token == seq!['r', 'a', 'w'] {
        Some(TargetType::Raw)
    } else if token == seq!['t', 'e', 'l', 'n', 'e', 't'] {
        Some(TargetType::Telnet)
    } else {
        None
    }
}

proof fn lemma_colon_from_bounds(s: Seq<char>, from: int)
    requires
        0 <= from,
    ensures
        from <= colon_from(s, from) || colon_from(s, from) == s.len(),
        colon_from(s, from) <= s.len(),
        colon_from(s, from) < s.len() ==> s[colon_from(s, from)] == ':',
    decreases s.len() - from,
{
    if from < s.len() && s[from] != ':' {
        lemma_colon_from_bounds(s, from + 1);
    }
}

/// Index of the first ':' in `s` at or after `from`, or its length.
fn find_colon(s: &str, len: usize, from: usize) -> (r: usize)
    requires
        len == s@.len(),
    ensures
        r == colon_from(s@, from as int),
{
    if from >= len {
        return len;
    }
    let mut i: usize = from;
    while i < len
        invariant
            from <= i <= len,
            len == s@.len(),
            colon_from(s@, from as int) == colon_from(s@, i as int),
        decreases len - i,
    {
        if s.get_char(i) == ':' {
            return i;
        }
        i = i + 1;
    }
    len
}

impl TargetType {
    /// The target type named by a mode token already put in lower case.
    pub fn from_token(token: &String) -> (r: Option<TargetType>)
        ensures
            r == mode_of(token@),
    {
        let raw = String::from_str("raw");
        let telnet = String::from_str("telnet");
        proof {
            reveal_strlit("raw");
            reveal_strlit("telnet");
            assert("raw"@ =~= seq!['r', 'a', 'w']);
            assert("telnet"@ =~= seq!['t', 'e', 'l', 'n', 'e', 't']);
        }
        if *token == raw {
            Some(TargetType::Raw)
        } else if *token == telnet {
            Some(TargetType::Telnet)
        } else {
            None
        }
    }
}

impl Target {
    /// Parses a `NAME:TYPE:HOST:PORT` specification; the type is `raw` or
    /// `telnet`, in any case, and the address is `HOST:PORT`.
    pub fn parse(s: &str) -> (r: Result<Target, ParseError>)
        ensures
            r matches Err(ParseError::Malformed) <==> !has_four_fields(s@),
            r matches Err(ParseError::UnknownMode) <==> has_four_fields(s@) && mode_of(
                lower_of(mode_field(s@)),
            ) is None,
            r is Ok <==> has_four_fields(s@) && mode_of(lower_of(mode_field(s@))) is Some,
            r matches Ok(t) ==> {
                &&& Some(t.target_type) == mode_of(lower_of(mode_field(s@)))
                &&& t.name@ == name_field(s@)
                &&& t.address@ == host_field(s@) + seq![':'] + port_field(s@)
            },
    {
        let len = s.unicode_len();
        let i = find_colon(s, len, 0);
        proof {
            lemma_colon_from_bounds(s@, 0);
        }
        if i >= len {
            return Err(ParseError::Malformed);
        }
        let j = find_colon(s, len, i + 1);
        proof {
            lemma_colon_from_bounds(s@, i + 1);
        }
        if j >= len {
            return Err(ParseError::Malformed);
        }
        let k = find_colon(s, len, j + 1);
        proof {
            lemma_colon_from_bounds(s@, j + 1);
        }
        if k >= len {
            return Err(ParseError::Malformed);
        }
        let name = String::from_str(s.substring_char(0, i));
        let mode = lowercase(s.substring_char(i + 1, j));
        let target_type = match TargetType::from_token(&mode) {
            Some(t) => t,
            None => return Err(ParseError::UnknownMode),
        };
        let host = String::from_str(s.substring_char(j + 1, k));
        let port = s.substring_char(k + 1, len);
        proof {
            reveal_strlit(":");
        }
        let address = host.concat(":").concat(port);
        Ok(Target { name, target_type, address })
    }
}

/// What a registry holds after `adds` were added in order to an empty one.
pub open spec fn registry_after(adds: Seq<Target>) -> Map<Seq<char>, Target>
    decreases adds.len(),
{
    if adds.len() == 0 {
        Map::empty()
    } else {
        registry_after(adds.drop_last()).insert(adds.last().name@, adds.last())
    }
}

/// After a series of additions, a name never added is not found, and a name
/// added once or more is found with the target added last under it.
pub proof fn lemma_last_added_wins(adds: Seq<Target>, name: Seq<char>)
    ensures
        (forall|i: int| 0 <= i < adds.len() ==> #[trigger] adds[i].name@ != name)
            ==> !registry_after(adds).contains_key(name),
        forall|i: int|
            0 <= i < adds.len() && #[trigger] adds[i].name@ == name && (forall|j: int|
                i < j < adds.len() ==> #[trigger] adds[j].name@ != name) ==> registry_after(
                adds,
            ).contains_key(name) && registry_after(adds)[name] == adds[i],
    decreases adds.len(),
{
    if adds.len() > 0 {
        let init = adds.drop_last();
        lemma_last_added_wins(init, name);
        assert forall|i: int|
            0 <= i < adds.len() && #[trigger] adds[i].name@ == name && (forall|j: int|
                i < j < adds.len() ==> #[trigger] adds[j].name@ != name) implies registry_after(
            adds,
        ).contains_key(name) && registry_after(adds)[name] == adds[i] by {
            if i < adds.len() - 1 {
                assert(adds[adds.len() - 1].name@ != name);
                assert(init[i] == adds[i]);
                assert forall|j: int| i < j < init.len() implies #[trigger] init[j].name@ != name by {
                    assert(init[j] == adds[j]);
                }
            }
        }
        if forall|i: int| 0 <= i < adds.len() ==> #[trigger] adds[i].name@ != name {
            assert forall|i: int| 0 <= i < init.len() implies #[trigger] init[i].name@ != name by {
                assert(init[i] == adds[i]);
            }
            assert(adds[adds.len() - 1].name@ != name);
        }
    }
}

/// Targets by name; a name added again replaces the earlier target.
pub struct TargetRegistry {
    targets: Vec<Arc<Target>>,
    by_name: Ghost<Map<Seq<char>, Target>>,
}

impl View for TargetRegistry {
    type V = Map<Seq<char>, Target>;

    closed spec fn view(&self) -> Map<Seq<char>, Target> {
        self.by_name@
    }
}

impl TargetRegistry {
    /// Each stored target is the map's entry under its name, names are
    /// distinct, and every name of the map is stored.
    pub closed spec fn wf(&self) -> bool {
        &&& forall|i: int|
            0 <= i < self.targets@.len() ==> #[trigger] self.by_name@.contains_key(
                self.targets@[i].name@,
            ) && self.by_name@[self.targets@[i].name@] == *self.targets@[i]
        &&& forall|i: int, j: int|
            0 <= i < j < self.targets@.len() ==> #[trigger] self.targets@[i].name@
                != #[trigger] self.targets@[j].name@
        &&& forall|k: Seq<char>|
            #[trigger] self.by_name@.contains_key(k) ==> exists|i: int|
                0 <= i < self.targets@.len() && #[trigger] self.targets@[i].name@ == k
    }

    pub fn new() -> (r: Self)
        ensures
            r.wf(),
            r@ == Map::<Seq<char>, Target>::empty(),
    {
        TargetRegistry { targets: Vec::new(), by_name: Ghost(Map::empty()) }
    }

    /// Position of the target named `name`, if one is stored.
    fn position(&self, name: &String) -> (r: Option<usize>)
        requires
            self.wf(),
        ensures
            match r {
                Some(i) => i < self.targets@.len() && self.targets@[i as int].name@ == name@,
                None => !self@.contains_key(name@),
            },
    {
        let mut i: usize = 0;
        while i < self.targets.len()
            invariant
                self.wf(),
                i <= self.targets@.len(),
                forall|j: int| 0 <= j < i ==> self.targets@[j].name@ != name@,
            decreases self.targets@.len() - i,
        {
            if self.targets[i].name == *name {
                return Some(i);
            }
            i = i + 1;
        }
        None
    }

    /// Adds `target`, replacing any target of the same name.
    pub fn add(&mut self, target: Target)
        requires
            old(self).wf(),
        ensures
            final(self).wf(),
            final(self)@ == old(self)@.insert(target.name@, target),
    {
        let ghost key = target.name@;
        let ghost updated = self.by_name@.insert(key, target);
        let name = target.name.clone();
        let ghost mut pos: int = 0;
        match self.position(&name) {
            Some(i) => {
                self.targets.set(i, Arc::new(target));
                proof {
                    pos = i as int;
                }
            },
            None => {
                self.targets.push(Arc::new(target));
                proof {
                    pos = old(self).targets@.len() as int;
                }
            },
        }
        self.by_name = Ghost(updated);
        assert(self.targets@[pos].name@ == key);
        assert forall|k: Seq<char>| #[trigger] self.by_name@.contains_key(k) implies exists|i: int|
            0 <= i < self.targets@.len() && #[trigger] self.targets@[i].name@ == k by {
            if k != key {
                assert(old(self).by_name@.contains_key(k));
                let i = choose|i: int|
                    0 <= i < old(self).targets@.len() && #[trigger] old(self).targets@[i].name@
                        == k;
                assert(i != pos);
                assert(self.targets@[i].name@ == k);
            } else {
                assert(self.targets@[pos].name@ == k);
            }
        }
    }

    /// The target named exactly `name`, if any.
    pub fn get(&self, name: &str) -> (r: Option<Arc<Target>>)
        requires
            self.wf(),
        ensures
            match r {
                Some(t) => self@.contains_key(name@) && *t == self@[name@],
                None => !self@.contains_key(name@),
            },
    {
        let key = String::from_str(name);
        match self.position(&key) {
            Some(i) => {
                assert(self.by_name@.contains_key(self.targets@[i as int].name@));
                Some(share(&self.targets[i]))
            },
            None => None,
        }
    }

    /// Every stored target, once each, in no particular order.
    pub fn list(&self) -> (r: Vec<Arc<Target>>)
        requires
            self.wf(),
        ensures
            forall|i: int|
                0 <= i < r@.len() ==> #[trigger] self@.contains_key(r@[i].name@) && self@[r@[i].name@]
                    == *r@[i],
            forall|i: int, j: int|
                0 <= i < j < r@.len() ==> #[trigger] r@[i].name@ != #[trigger] r@[j].name@,
            forall|k: Seq<char>|
                #[trigger] self@.contains_key(k) ==> exists|i: int|
                    0 <= i < r@.len() && #[trigger] r@[i].name@ == k,
    {
        let mut r: Vec<Arc<Target>> = Vec::new();
        let mut i: usize = 0;
        while i < self.targets.len()
            invariant
                self.wf(),
                i <= self.targets@.len(),
                r@.len() == i,
                forall|j: int| 0 <= j < i ==> *r@[j] == *self.targets@[j],
            decreases self.targets@.len() - i,
        {
            r.push(share(&self.targets[i]));
            i = i + 1;
        }
        assert forall|k: Seq<char>| #[trigger] self@.contains_key(k) implies exists|i: int|
            0 <= i < r@.len() && #[trigger] r@[i].name@ == k by {
            assert(self.by_name@.contains_key(k));
            let i = choose|i: int|
                0 <= i < self.targets@.len() && #[trigger] self.targets@[i].name@ == k;
            assert(*r@[i] == *self.targets@[i]);
            assert(r@[i].name@ == k);
        }
        assert forall|i: int, j: int| 0 <= i < j < r@.len() implies #[trigger] r@[i].name@
            != #[trigger] r@[j].name@ by {
            assert(self.targets@[i].name@ != self.targets@[j].name@);
        }
        r
    }

    pub fn is_empty(&self) -> (r: bool)
        requires
            self.wf(),
        ensures
            r == (self@ == Map::<Seq<char>, Target>::empty()),
    {
        if self.targets.len() == 0 {
            assert(self@ =~= Map::<Seq<char>, Target>::empty());
            true
        } else {
            assert(self@.contains_key(self.targets@[0].name@));
            false
        }
    }
}

} // verus!
