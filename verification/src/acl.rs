//! Access lists: who may read and write an entity.
use vstd::prelude::*;

use crate::decimal::{parse_signed, signed_text, signed_value, write_signed};
use crate::decimal::lemma_signed_text;
use crate::text::{chars_of, cut_once, lemma_cut_at_char, same, split_once};

verus! {

/// The part that a client takes in a room.
#[derive(Debug, Clone, Copy, PartialEq, Eq, Structural)]
pub enum Role {
    Host,
    Player,
    Audience,
    Moderator,
}

/// The name of a role.
pub open spec fn role_text(r: Role) -> Seq<char> {
    match r {
        Role::Host => "host"@,
        Role::Player => "player"@,
        Role::Audience => "audience"@,
        Role::Moderator => "moderator"@,
    }
}

/// The role with the given name.
pub open spec fn role_value(s: Seq<char>) -> Option<Role> {
    if s == "host"@ {
        Some(Role::Host)
    } else if s == "player"@ {
        Some(Role::Player)
    } else if s == "audience"@ {
        Some(Role::Audience)
    } else if s == "moderator"@ {
        Some(Role::Moderator)
    } else {
        None
    }
}

/// The name of a role leads back to that role.
pub proof fn law_role_reads_back(r: Role)
    ensures
        role_value(role_text(r)) == Some(r),
{
    reveal_strlit("host");
    reveal_strlit("player");
    reveal_strlit("audience");
    reveal_strlit("moderator");
    assert("host"@[0] == 'h');
    assert("player"@[0] == 'p');
    assert("audience"@[0] == 'a');
    assert("moderator"@[0] == 'm');
}

impl Role {
    /// The name of the role.
    pub fn to_text(self) -> (r: String)
        ensures
            r@ == role_text(self),
    {
        match self {
            Role::Host => "host".to_owned(),
            Role::Player => "player".to_owned(),
            Role::Audience => "audience".to_owned(),
            Role::Moderator => "moderator".to_owned(),
        }
    }

    /// The role with the given name.
    pub fn from_str(s: &str) -> (r: Result<Role, ()>)
        ensures
            match r {
                Ok(role) => role_value(s@) == Some(role),
                Err(_) => role_value(s@) is None,
            },
    {
        if same(s, "host") {
            Ok(Role::Host)
        } else if same(s, "player") {
            Ok(Role::Player)
        } else if same(s, "audience") {
            Ok(Role::Audience)
        } else if same(s, "moderator") {
            Ok(Role::Moderator)
        } else {
            Err(())
        }
    }
}

/// What an access list entry lets a client do; at least one of the three.
#[derive(Debug, Clone, Copy, PartialEq, Eq, Structural)]
pub struct Interest {
    pub readable: bool,
    pub writable: bool,
    pub priority: bool,
}

impl Interest {
    /// Something is allowed.
    pub open spec fn wf(self) -> bool {
        self.readable || self.writable || self.priority
    }

    /// What either of the two allows.
    pub open spec fn either(self, other: Interest) -> Interest {
        Interest {
            readable: self.readable || other.readable,
            writable: self.writable || other.writable,
            priority: self.priority || other.priority,
        }
    }

    /// Reading and nothing else.
    pub open spec fn read_only() -> Interest {
        Interest { readable: true, writable: false, priority: false }
    }

    /// Reading and writing.
    pub open spec fn read_write() -> Interest {
        Interest { readable: true, writable: true, priority: false }
    }

    /// Reading and nothing else.
    pub fn readable() -> (r: Interest)
        ensures
            r == Interest::read_only(),
    {
        Interest { readable: true, writable: false, priority: false }
    }

    /// Writing and nothing else.
    pub fn writable() -> (r: Interest)
        ensures
            r == (Interest { readable: false, writable: true, priority: false }),
    {
        Interest { readable: false, writable: true, priority: false }
    }

    /// Priority and nothing else.
    pub fn priority() -> (r: Interest)
        ensures
            r == (Interest { readable: false, writable: false, priority: true }),
    {
        Interest { readable: false, writable: false, priority: true }
    }

    /// What either of the two allows.
    pub fn or(self, other: Interest) -> (r: Interest)
        ensures
            r == self.either(other),
    {
        Interest {
            readable: self.readable || other.readable,
            writable: self.writable || other.writable,
            priority: self.priority || other.priority,
        }
    }

    /// Whether reading is allowed.
    pub fn is_readable(self) -> (r: bool)
        ensures
            r == self.readable,
    {
        self.readable
    }

    /// Whether writing is allowed.
    pub fn is_writable(self) -> (r: bool)
        ensures
            r == self.writable,
    {
        self.writable
    }

    /// Whether priority is given.
    pub fn is_priority(self) -> (r: bool)
        ensures
            r == self.priority,
    {
        self.priority
    }
}

/// Whom an access list entry speaks of.
#[derive(Debug, Clone, Copy, PartialEq, Eq, Structural)]
pub enum Principle {
    Role(Role),
    Id(i64),
    Wild,
}

impl Principle {
    /// The entry speaks of the client with this role and this id.
    pub open spec fn covers(self, role: Role, id: i64) -> bool {
        match self {
            Principle::Role(r) => role == r,
            Principle::Id(i) => id == i,
            Principle::Wild => true,
        }
    }

    /// Whether the entry speaks of the client with this role and this id.
    pub fn matches(&self, role: Role, id: i64) -> (r: bool)
        ensures
            r == self.covers(role, id),
    {
        match *self {
            Principle::Role(r) => role == r,
            Principle::Id(i) => id == i,
            Principle::Wild => true,
        }
    }

    /// The principle in words: `role:` and a role, `id:` and a number, or a star.
    pub fn to_text(&self) -> (r: String)
        ensures
            r@ == principle_text(*self),
    {
        match *self {
            Principle::Role(role) => "role:".to_owned().concat(role.to_text().as_str()),
            Principle::Id(id) => "id:".to_owned().concat(write_signed(id).as_str()),
            Principle::Wild => "*".to_owned(),
        }
    }
}

/// The principle in words.
pub open spec fn principle_text(p: Principle) -> Seq<char> {
    match p {
        Principle::Role(role) => "role:"@ + role_text(role),
        Principle::Id(id) => "id:"@ + signed_text(id as int),
        Principle::Wild => "*"@,
    }
}

/// The principle that the words stand for.
pub open spec fn principle_value(s: Seq<char>) -> Option<Principle> {
    if s == "*"@ {
        Some(Principle::Wild)
    } else {
        match cut_once(s, seq![':']) {
            None => None,
            Some((kind, rest)) => if kind == "role"@ {
                match role_value(rest) {
                    Some(role) => Some(Principle::Role(role)),
                    None => None,
                }
            } else if kind == "id"@ {
                match signed_value(rest) {
                    Some(id) => Some(Principle::Id(id as i64)),
                    None => None,
                }
            } else {
                None
            },
        }
    }
}

/// One entry of an access list.
#[derive(Debug, Clone, Copy, PartialEq, Eq, Structural)]
pub struct Acl {
    pub interest: Interest,
    pub principle: Principle,
}

/// The letters of an interest, in the order `s`, `r`, `w`.
pub open spec fn interest_text(i: Interest) -> Seq<char> {
    (if i.priority { seq!['s'] } else { Seq::<char>::empty() })
        + (if i.readable { seq!['r'] } else { Seq::<char>::empty() })
        + (if i.writable { seq!['w'] } else { Seq::<char>::empty() })
}

/// The interest that a non-empty row of the letters `s`, `r` and `w` stands for.
pub open spec fn interest_value(s: Seq<char>) -> Option<Interest> {
    if s.len() > 0 && (forall|i: int|
        0 <= i < s.len() ==> (#[trigger] s[i] == 's' || s[i] == 'r' || s[i] == 'w')) {
        Some(
            Interest {
                readable: s.contains('r'),
                writable: s.contains('w'),
                priority: s.contains('s'),
            },
        )
    } else {
        None
    }
}

/// The entry in words: its letters, a space and its principle.
pub open spec fn acl_text(a: Acl) -> Seq<char> {
    interest_text(a.interest) + seq![' '] + principle_text(a.principle)
}

/// The entry that the words stand for.
pub open spec fn acl_value(s: Seq<char>) -> Option<Acl> {
    match cut_once(s, seq![' ']) {
        None => None,
        Some((letters, who)) => match (interest_value(letters), principle_value(who)) {
            (Some(interest), Some(principle)) => Some(Acl { interest, principle }),
            _ => None,
        },
    }
}

/// Reads the letters of an interest.
fn read_interest(s: &str) -> (r: Option<Interest>)
    ensures
        r == interest_value(s@),
{
    let sc = chars_of(s);
    let mut state: Option<Interest> = None;
    for k in 0..sc.len()
        invariant
            sc@ == s@,
            forall|i: int|
                0 <= i < k ==> (#[trigger] sc@[i] == 's' || sc@[i] == 'r' || sc@[i] == 'w'),
            state is None <==> k == 0,
            state matches Some(i) ==> {
                &&& i.priority == sc@.take(k as int).contains('s')
                &&& i.readable == sc@.take(k as int).contains('r')
                &&& i.writable == sc@.take(k as int).contains('w')
            },
    {
        let c = sc[k];
        let one = if c == 's' {
            Interest::priority()
        } else if c == 'r' {
            Interest::readable()
        } else if c == 'w' {
            Interest::writable()
        } else {
            assert(!(s@[k as int] == 's' || s@[k as int] == 'r' || s@[k as int] == 'w'));
            return None;
        };
        let before = match state {
            Some(i) => i,
            None => one,
        };
        state = Some(before.or(one));
        proof {
            let a = sc@.take(k as int);
            let b = sc@.take(k + 1);
            assert(b =~= a.push(c));
            assert(b[k as int] == c);
            assert forall|x: char| #[trigger] b.contains(x) == (a.contains(x) || x == c) by {
                if a.contains(x) {
                    let j = choose|j: int| 0 <= j < a.len() && a[j] == x;
                    assert(b[j] == x);
                }
            }
            if k == 0 {
                assert(a =~= Seq::<char>::empty());
            }
        }
    }
    assert(sc@.take(sc@.len() as int) =~= s@);
    state
}

/// Reads a principle.
fn read_principle(s: &str) -> (r: Option<Principle>)
    ensures
        r == principle_value(s@),
{
    if same(s, "*") {
        return Some(Principle::Wild);
    }
    proof {
        reveal_strlit(":");
        assert(":"@ =~= seq![':']);
    }
    match split_once(s, ":") {
        None => None,
        Some((kind, rest)) => {
            if same(kind.as_str(), "role") {
                match Role::from_str(rest.as_str()) {
                    Ok(role) => Some(Principle::Role(role)),
                    Err(_) => None,
                }
            } else if same(kind.as_str(), "id") {
                match parse_signed(rest.as_str()) {
                    Some(id) => Some(Principle::Id(id)),
                    None => None,
                }
            } else {
                None
            }
        },
    }
}

impl Acl {
    /// The entry that lets everybody read.
    pub open spec fn everyone_reads() -> Acl {
        Acl { interest: Interest::read_only(), principle: Principle::Wild }
    }

    /// The access list of an entity that brings none: everybody reads.
    pub fn default_vec() -> (r: Vec<Acl>)
        ensures
            r@ == seq![Acl::everyone_reads()],
    {
        let mut v: Vec<Acl> = Vec::new();
        v.push(Acl::default());
        assert(v@ =~= seq![Acl::everyone_reads()]);
        v
    }

    /// The entry in words.
    pub fn to_text(&self) -> (r: String)
        ensures
            r@ == acl_text(*self),
    {
        let mut out = String::new();
        if self.interest.is_priority() {
            out.push('s');
        }
        if self.interest.is_readable() {
            out.push('r');
        }
        if self.interest.is_writable() {
            out.push('w');
        }
        assert(out@ =~= interest_text(self.interest));
        out.push(' ');
        out.append(self.principle.to_text().as_str());
        assert(out@ =~= acl_text(*self));
        out
    }

    /// Reads an entry.
    pub fn from_str(s: &str) -> (r: Result<Acl, ()>)
        ensures
            match r {
                Ok(a) => acl_value(s@) == Some(a),
                Err(_) => acl_value(s@) is None,
            },
    {
        proof {
            reveal_strlit(" ");
            assert(" "@ =~= seq![' ']);
        }
        let (letters, who) = match split_once(s, " ") {
            None => return Err(()),
            Some(p) => p,
        };
        let interest = match read_interest(letters.as_str()) {
            None => return Err(()),
            Some(i) => i,
        };
        match read_principle(who.as_str()) {
            None => Err(()),
            Some(principle) => Ok(Acl { interest, principle }),
        }
    }
}

impl Default for Acl {
    fn default() -> (r: Acl)
        ensures
            r == Acl::everyone_reads(),
    {
        Acl { interest: Interest::readable(), principle: Principle::Wild }
    }
}

/// The words of a principle lead back to that principle.
pub proof fn law_principle_reads_back(p: Principle)
    ensures
        principle_value(principle_text(p)) == Some(p),
{
    reveal_strlit("role");
    reveal_strlit("role:");
    reveal_strlit("id");
    reveal_strlit("id:");
    reveal_strlit("*");
    assert("role:"@ =~= "role"@ + seq![':']);
    assert("id:"@ =~= "id"@ + seq![':']);
    assert("role"@[0] == 'r');
    assert("role:"@[0] == 'r');
    assert("id"@[0] == 'i');
    assert("id:"@[0] == 'i');
    assert("*"@[0] == '*');
    match p {
        Principle::Role(role) => {
            law_role_reads_back(role);
            lemma_cut_at_char("role"@, ':', role_text(role));
            assert(principle_text(p)[0] == 'r');
        },
        Principle::Id(id) => {
            lemma_signed_text(id as int);
            lemma_cut_at_char("id"@, ':', signed_text(id as int));
            assert(principle_text(p)[0] == 'i');
        },
        Principle::Wild => {},
    }
}

/// An entry that is written and read again is the same entry.
pub proof fn law_acl_reads_back(a: Acl)
    requires
        a.interest.wf(),
    ensures
        acl_value(acl_text(a)) == Some(a),
{
    let letters = interest_text(a.interest);
    assert(!letters.contains(' '));
    lemma_cut_at_char(letters, ' ', principle_text(a.principle));
    law_principle_reads_back(a.principle);
    let p: int = if a.interest.priority { 1 } else { 0 };
    let r: int = if a.interest.readable { 1 } else { 0 };
    if a.interest.priority {
        assert(letters[0] == 's');
    }
    if a.interest.readable {
        assert(letters[p] == 'r');
    }
    if a.interest.writable {
        assert(letters[p + r] == 'w');
    }
    assert(interest_value(letters) == Some(a.interest));
}

/// Every entry that can be read allows something.
pub proof fn law_read_acl_allows_something(s: Seq<char>)
    ensures
        acl_value(s) matches Some(a) ==> a.interest.wf(),
{
    if acl_value(s) is Some {
        let letters = cut_once(s, seq![' '])->Some_0.0;
        assert(letters[0] == 's' || letters[0] == 'r' || letters[0] == 'w');
        assert(letters.contains(letters[0]));
    }
}

/// The roles and their names; no other name stands for a role.
pub proof fn law_roles_by_name(s: Seq<char>, r: Role)
    ensures
        role_text(Role::Host) == "host"@,
        role_text(Role::Player) == "player"@,
        role_text(Role::Audience) == "audience"@,
        role_text(Role::Moderator) == "moderator"@,
        role_value(s) == Some(r) <==> s == role_text(r),
{
    law_role_reads_back(r);
}

/// An `r` lets read, a `w` lets write and an `s` gives priority; a row of these letters, of at least
/// one, stands for an interest, and nothing else does.
pub proof fn law_letters(s: Seq<char>)
    ensures
        match interest_value(s) {
            Some(i) => {
                &&& i.readable <==> exists|k: int| 0 <= k < s.len() && #[trigger] s[k] == 'r'
                &&& i.writable <==> exists|k: int| 0 <= k < s.len() && #[trigger] s[k] == 'w'
                &&& i.priority <==> exists|k: int| 0 <= k < s.len() && #[trigger] s[k] == 's'
                &&& s.len() > 0
            },
            None => s.len() == 0 || exists|k: int|
                0 <= k < s.len() && #[trigger] s[k] != 'r' && s[k] != 'w' && s[k] != 's',
        },
        interest_value(s) is Some ==> forall|k: int|
            0 <= k < s.len() ==> #[trigger] s[k] == 'r' || s[k] == 'w' || s[k] == 's',
{
}

/// A star stands for everybody, `role:` with the name of a role for that role, `id:` with a number
/// for the client with that id, and nothing else for anybody.
pub proof fn law_words_of_a_principle(kind: Seq<char>, rest: Seq<char>)
    requires
        !kind.contains(':'),
    ensures
        principle_value("*"@) == Some(Principle::Wild),
        principle_value(kind + seq![':'] + rest) == if kind == "role"@ {
            match role_value(rest) {
                Some(r) => Some(Principle::Role(r)),
                None => None,
            }
        } else if kind == "id"@ {
            match signed_value(rest) {
                Some(i) => Some(Principle::Id(i as i64)),
                None => None,
            }
        } else {
            None
        },
        kind != "*"@ ==> principle_value(kind) is None,
{
    reveal_strlit("*");
    let whole = kind + seq![':'] + rest;
    lemma_cut_at_char(kind, ':', rest);
    assert(whole[kind.len() as int] == ':');
    assert(whole != "*"@) by {
        if whole == "*"@ {
            assert(whole.len() == 1);
            assert("*"@[0] == '*');
        }
    }
    assert forall|j: int| 0 <= j implies !#[trigger] crate::text::occurs_at(kind, seq![':'], j) by {
        if crate::text::occurs_at(kind, seq![':'], j) {
            assert(kind.subrange(j, j + 1)[0] == ':');
            assert(kind[j] == ':');
        }
    }
    crate::text::lemma_first_from_none(kind, seq![':'], 0);
}

/// An entry is read from its letters and, behind the first space, its principle; where either is
/// missing there is none.
pub proof fn law_words_of_an_entry(letters: Seq<char>, who: Seq<char>)
    requires
        !letters.contains(' '),
    ensures
        match acl_value(letters + seq![' '] + who) {
            Some(a) => interest_value(letters) == Some(a.interest) && principle_value(who) == Some(
                a.principle,
            ),
            None => interest_value(letters) is None || principle_value(who) is None,
        },
        acl_value(letters) is None,
{
    lemma_cut_at_char(letters, ' ', who);
    assert forall|j: int| 0 <= j implies !#[trigger] crate::text::occurs_at(
        letters,
        seq![' '],
        j,
    ) by {
        if crate::text::occurs_at(letters, seq![' '], j) {
            assert(letters.subrange(j, j + 1)[0] == ' ');
            assert(letters[j] == ' ');
        }
    }
    crate::text::lemma_first_from_none(letters, seq![' '], 0);
}

/// An entry is written as its letters, `s`, `r` and `w` in this order and each at most once, a space,
/// and its principle: a star, `role:` with the name of a role, or `id:` with a number.
pub proof fn law_written_entries(a: Acl, role: Role, id: i64)
    ensures
        ({
            let i = a.interest;
            let letters = interest_text(i);
            let r: int = if i.priority {
                1
            } else {
                0
            };
            let w: int = if i.readable {
                r + 1
            } else {
                r
            };
            &&& acl_text(a) == letters + seq![' '] + principle_text(a.principle)
            &&& letters.len() == if i.writable {
                w + 1
            } else {
                w
            }
            &&& i.priority ==> letters[0] == 's'
            &&& i.readable ==> letters[r] == 'r'
            &&& i.writable ==> letters[w] == 'w'
        }),
        principle_text(Principle::Wild) == "*"@,
        principle_text(Principle::Role(role)) == "role:"@ + role_text(role),
        principle_text(Principle::Id(id)) == "id:"@ + signed_text(id as int),
{
}

} // verus!
