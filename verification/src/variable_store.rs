use vstd::prelude::*;
use crate::smap::StrMap;
use crate::text::{chars_eq, chars_of, concat_chars, replace_all, replace_all_chars, string_from_chars};

verus! {

/// Lifetime of a declared story variable.
#[derive(Clone, Copy, Debug, PartialEq, Eq, Structural)]
pub enum VariableScope {
    Game,
    Act,
    Stage,
}

impl Default for VariableScope {
    fn default() -> (r: Self)
        ensures
            r == VariableScope::Game,
    {
        VariableScope::Game
    }
}

/// Type a declared story variable's value must have.
#[derive(Clone, Copy, Debug, PartialEq, Eq, Structural)]
pub enum VariableType {
    String,
    Bool,
    Int,
}

impl Default for VariableType {
    fn default() -> (r: Self)
        ensures
            r == VariableType::String,
    {
        VariableType::String
    }
}

/// Declaration of a story variable: its type, optional default value and scope.
#[derive(Clone, Debug)]
pub struct VariableDeclaration {
    pub var_type: VariableType,
    pub default: Option<String>,
    pub scope: VariableScope,
}

impl VariableDeclaration {
    /// A copy of the declaration.
    pub fn copy(&self) -> (r: Self)
        ensures
            r == *self,
    {
        VariableDeclaration {
            var_type: self.var_type,
            default: match &self.default {
                Some(d) => Some(d.clone()),
                None => None,
            },
            scope: self.scope,
        }
    }
}

/// A copy of a map of declarations.
pub fn copy_declarations(m: &StrMap<VariableDeclaration>) -> (r: StrMap<VariableDeclaration>)
    requires
        m.wf(),
    ensures
        r.wf(),
        r@ == m@,
{
    let mut r: StrMap<VariableDeclaration> = StrMap::new();
    let n = m.len();
    proof { m.lemma_contents(); }
    let mut i: usize = 0;
    while i < n
        invariant
            m.wf(),
            r.wf(),
            n == m.key_seq().len(),
            i <= n,
            r@ == m@.restrict(Set::new(|k: Seq<char>| exists|j: int| 0 <= j < i && m.key_seq()[j] == k)),
        decreases n - i,
    {
        proof { m.lemma_contents(); }
        let k = m.key_at(i).clone();
        let v = m.value_at(i).copy();
        r.insert(k, v);
        assert(r@ =~= m@.restrict(Set::new(|k: Seq<char>| exists|j: int| 0 <= j < i + 1 && m.key_seq()[j] == k)));
        i = i + 1;
    }
    proof { m.lemma_contents(); }
    assert(r@ =~= m@);
    r
}

/// Why a story variable could not be written.
#[derive(Clone, Debug)]
pub enum VariableError {
    Undeclared(String),
    TypeMismatch { key: String, expected: VariableType, actual: String },
}

pub open spec fn seq_true() -> Seq<char> {
    seq!['t', 'r', 'u', 'e']
}

pub open spec fn seq_false() -> Seq<char> {
    seq!['f', 'a', 'l', 's', 'e']
}

pub open spec fn is_ascii_digit(c: char) -> bool {
    '0' <= c && c <= '9'
}

/// Numeric value of a string of ASCII digits.
pub open spec fn digits_value(d: Seq<char>) -> int
    decreases d.len(),
{
    if d.len() == 0 {
        0
    } else {
        digits_value(d.drop_last()) * 10 + (d.last() as int - '0' as int)
    }
}

pub open spec fn all_digits(d: Seq<char>) -> bool {
    forall|i: int| 0 <= i < d.len() ==> is_ascii_digit(#[trigger] d[i])
}

/// Whether `s` is the text of a signed 64-bit integer, as `str::parse::<i64>`
/// accepts it: an optional `+` or `-`, then at least one ASCII digit, with the
/// value in range.
pub open spec fn parses_as_i64(s: Seq<char>) -> bool {
    let signed = s.len() > 0 && (s[0] == '-' || s[0] == '+');
    let digits = if signed { s.drop_first() } else { s };
    let negative = s.len() > 0 && s[0] == '-';
    &&& digits.len() > 0
    &&& all_digits(digits)
    &&& if negative { digits_value(digits) <= 0x8000_0000_0000_0000 } else { digits_value(digits) <= 0x7fff_ffff_ffff_ffff }
}

/// Whether `value` may be stored in a variable of type `t`.
pub open spec fn value_fits_type(value: Seq<char>, t: VariableType) -> bool {
    match t {
        VariableType::String => true,
        VariableType::Bool => value == seq_true() || value == seq_false(),
        VariableType::Int => parses_as_i64(value),
    }
}

pub open spec fn curly_pattern(key: Seq<char>) -> Seq<char> {
    seq!['{'] + key + seq!['}']
}

pub open spec fn dollar_pattern(key: Seq<char>) -> Seq<char> {
    seq!['$'] + key
}

/// The template after substituting the first `n` of the given variables, in
/// order, first as `{key}` and then as `$key`.
pub open spec fn render_steps(t: Seq<char>, keys: Seq<Seq<char>>, vals: Seq<Seq<char>>, n: nat) -> Seq<char>
    decreases n,
{
    if n == 0 {
        t
    } else {
        let prev = render_steps(t, keys, vals, (n - 1) as nat);
        let k = keys[n - 1];
        let v = vals[n - 1];
        replace_all(replace_all(prev, curly_pattern(k), v), dollar_pattern(k), v)
    }
}

proof fn lemma_digits_step(d: Seq<char>, c: char)
    ensures
        digits_value(d.push(c)) == digits_value(d) * 10 + (c as int - '0' as int),
{
    assert(d.push(c).drop_last() =~= d);
}

/// Whether `s` is the text of a signed 64-bit integer.
pub fn text_parses_as_i64(s: &Vec<char>) -> (r: bool)
    ensures
        r == parses_as_i64(s@),
{
    let n = s.len();
    if n == 0 {
        return false;
    }
    let signed = s[0] == '-' || s[0] == '+';
    let negative = s[0] == '-';
    let start: usize = if signed { 1 } else { 0 };
    let ghost digits = if signed { s@.drop_first() } else { s@ };
    assert(signed == (s@.len() > 0 && (s@[0] == '-' || s@[0] == '+')));
    assert(digits =~= s@.skip(start as int));
    if start >= n {
        return false;
    }
    let cap: u128 = 0x8000_0000_0000_0001;
    let mut acc: u128 = 0;
    let mut i: usize = start;
    while i < n
        invariant
            start <= i <= n,
            n == s@.len(),
            digits == s@.skip(start as int),
            digits == (if s@.len() > 0 && (s@[0] == '-' || s@[0] == '+') { s@.drop_first() } else { s@ }),
            cap == 0x8000_0000_0000_0001,
            all_digits(s@.subrange(start as int, i as int)),
            acc as int == if digits_value(s@.subrange(start as int, i as int)) < cap { digits_value(s@.subrange(start as int, i as int)) } else { cap as int },
        decreases n - i,
    {
        let c = s[i];
        if !('0' <= c && c <= '9') {
            assert(digits[i - start] == c);
            assert(!is_ascii_digit(digits[i - start]));
            assert(!all_digits(digits));
            return false;
        }
        let d: u128 = ((c as u32) - ('0' as u32)) as u128;
        proof {
            assert(s@.subrange(start as int, i + 1) =~= s@.subrange(start as int, i as int).push(c));
            lemma_digits_step(s@.subrange(start as int, i as int), c);
        }
        let next = acc * 10 + d;
        acc = if next < cap { next } else { cap };
        i = i + 1;
    }
    assert(s@.subrange(start as int, n as int) =~= digits);
    if negative {
        acc <= 0x8000_0000_0000_0000
    } else {
        acc <= 0x7fff_ffff_ffff_ffff
    }
}

/// The value of `s` as `str::parse::<u32>` reads it: an optional `+`, then at
/// least one ASCII digit, with the value in range; `None` otherwise.
pub open spec fn parsed_u32(s: Seq<char>) -> Option<u32> {
    let digits = if s.len() > 0 && s[0] == '+' { s.drop_first() } else { s };
    if digits.len() > 0 && all_digits(digits) && digits_value(digits) <= u32::MAX {
        Some(digits_value(digits) as u32)
    } else {
        None
    }
}

/// Reads an unsigned 32-bit number.
pub fn parse_u32(s: &Vec<char>) -> (r: Option<u32>)
    ensures
        r == parsed_u32(s@),
{
    let n = s.len();
    let start: usize = if n > 0 && s[0] == '+' { 1 } else { 0 };
    let ghost digits = if s@.len() > 0 && s@[0] == '+' { s@.drop_first() } else { s@ };
    assert(digits =~= s@.skip(start as int));
    if start >= n {
        return None;
    }
    let cap: u64 = 0x1_0000_0000;
    let mut acc: u64 = 0;
    let mut i: usize = start;
    while i < n
        invariant
            start <= i <= n,
            n == s@.len(),
            digits == s@.skip(start as int),
            digits == (if s@.len() > 0 && s@[0] == '+' { s@.drop_first() } else { s@ }),
            cap == 0x1_0000_0000,
            all_digits(s@.subrange(start as int, i as int)),
            acc as int == if digits_value(s@.subrange(start as int, i as int)) < cap { digits_value(s@.subrange(start as int, i as int)) } else { cap as int },
        decreases n - i,
    {
        let c = s[i];
        if !('0' <= c && c <= '9') {
            assert(digits[i - start] == c);
            assert(!all_digits(digits));
            return None;
        }
        let d: u64 = ((c as u32) - ('0' as u32)) as u64;
        proof {
            assert(s@.subrange(start as int, i + 1) =~= s@.subrange(start as int, i as int).push(c));
            lemma_digits_step(s@.subrange(start as int, i as int), c);
        }
        let next = acc * 10 + d;
        acc = if next < cap { next } else { cap };
        i = i + 1;
    }
    assert(s@.subrange(start as int, n as int) =~= digits);
    if acc < cap {
        Some(acc as u32)
    } else {
        None
    }
}

/// Story variables: a map from keys to string values, checked against the
/// declarations of keys that have one.
pub struct VariableStore {
    values: StrMap<String>,
    declarations: StrMap<VariableDeclaration>,
}

impl VariableStore {
    pub closed spec fn wf(&self) -> bool {
        self.values.wf() && self.declarations.wf()
    }

    /// The stored values.
    pub closed spec fn vals(&self) -> Map<Seq<char>, Seq<char>> {
        self.values@.map_values(|s: String| s@)
    }

    /// The keys of the stored values, in ascending order.
    pub closed spec fn val_keys(&self) -> Seq<Seq<char>> {
        self.values.key_seq()
    }

    /// The stored values, in the order of their keys.
    pub closed spec fn val_texts(&self) -> Seq<Seq<char>> {
        self.values.val_seq().map_values(|s: String| s@)
    }

    /// The declarations.
    pub closed spec fn decls(&self) -> Map<Seq<char>, VariableDeclaration> {
        self.declarations@
    }

    /// An empty store without declarations.
    pub fn empty() -> (r: Self)
        ensures
            r.wf(),
            r.vals() == Map::<Seq<char>, Seq<char>>::empty(),
            r.decls() == Map::<Seq<char>, VariableDeclaration>::empty(),
    {
        let r = VariableStore { values: StrMap::new(), declarations: StrMap::new() };
        assert(r.vals() =~= Map::<Seq<char>, Seq<char>>::empty());
        r
    }

    /// A store for the given declarations, holding the default value of every
    /// declaration that has one.
    pub fn new(declarations: StrMap<VariableDeclaration>) -> (r: Self)
        requires
            declarations.wf(),
        ensures
            r.wf(),
            r.decls() == declarations@,
            forall|k: Seq<char>| #[trigger] r.vals().dom().contains(k) <==> declarations@.dom().contains(k) && declarations@[k].default is Some,
            forall|k: Seq<char>| #[trigger] r.vals().dom().contains(k) ==> r.vals()[k] == declarations@[k].default->0@,
    {
        let mut values: StrMap<String> = StrMap::new();
        let n = declarations.len();
        proof { declarations.lemma_contents(); }
        let mut i: usize = 0;
        while i < n
            invariant
                declarations.wf(),
                values.wf(),
                n == declarations.key_seq().len(),
                i <= n,
                forall|k: Seq<char>| #[trigger] values@.dom().contains(k) <==> exists|j: int| 0 <= j < i && declarations.key_seq()[j] == k && declarations@[k].default is Some,
                forall|k: Seq<char>| #[trigger] values@.dom().contains(k) ==> values@[k]@ == declarations@[k].default->0@,
            decreases n - i,
        {
            let decl = declarations.value_at(i);
            match &decl.default {
                Some(d) => {
                    let key = declarations.key_at(i).clone();
                    values.insert(key, d.clone());
                },
                None => {},
            }
            i = i + 1;
        }
        let r = VariableStore { values, declarations };
        proof {
            declarations.lemma_contents();
            assert forall|k: Seq<char>| #[trigger] r.vals().dom().contains(k) <==> declarations@.dom().contains(k) && declarations@[k].default is Some by {
                if declarations@.dom().contains(k) && declarations@[k].default is Some {
                    let j = choose|j: int| 0 <= j < declarations.key_seq().len() && declarations.key_seq()[j] == k;
                    assert(values@.dom().contains(k));
                }
            }
        }
        r
    }

    pub fn get(&self, key: &str) -> (r: Option<&str>)
        requires
            self.wf(),
        ensures
            r is Some == self.vals().dom().contains(key@),
            r matches Some(v) ==> v@ == self.vals()[key@],
    {
        let k = chars_of(key);
        match self.values.get(&k) {
            Some(v) => Some(v.as_str()),
            None => None,
        }
    }

    pub fn has(&self, key: &str) -> (r: bool)
        requires
            self.wf(),
        ensures
            r == self.vals().dom().contains(key@),
    {
        let k = chars_of(key);
        self.values.contains_key(&k)
    }

    /// Forgets a stored value.
    pub fn remove_value(&mut self, key: &str)
        requires
            old(self).wf(),
        ensures
            final(self).wf(),
            final(self).vals() == old(self).vals().remove(key@),
            final(self).decls() == old(self).decls(),
    {
        self.values.remove(&chars_of(key));
        assert(self.vals() =~= old(self).vals().remove(key@));
    }

    /// Writes a value without consulting the declarations.
    pub fn set_unchecked(&mut self, key: &str, value: &str)
        requires
            old(self).wf(),
        ensures
            final(self).wf(),
            final(self).vals() == old(self).vals().insert(key@, value@),
            final(self).decls() == old(self).decls(),
    {
        let k = chars_of(key);
        let v = string_from_chars(&chars_of(value));
        self.values.insert(k, v);
        assert(self.vals() =~= old(self).vals().insert(key@, value@));
    }

    /// Writes a value, refusing one that does not fit the key's declared type.
    pub fn set(&mut self, key: &str, value: &str) -> (r: Result<(), VariableError>)
        requires
            old(self).wf(),
        ensures
            final(self).wf(),
            final(self).decls() == old(self).decls(),
            r is Ok <==> !old(self).decls().dom().contains(key@) || value_fits_type(value@, old(self).decls()[key@].var_type),
            r is Ok ==> final(self).vals() == old(self).vals().insert(key@, value@),
            r is Err ==> final(self).vals() == old(self).vals(),
            r matches Err(e) ==> e matches VariableError::TypeMismatch { key: k, expected: t, actual: a }
                && k@ == key@ && t == old(self).decls()[key@].var_type && a@ == value@,
    {
        let k = chars_of(key);
        match self.declarations.get(&k) {
            Some(decl) => {
                let t = decl.var_type;
                validate_value(key, value, &t)?;
            },
            None => {},
        }
        self.set_unchecked(key, value);
        Ok(())
    }

    /// Removes the values of every variable declared with `scope`.
    pub fn clear_scoped(&mut self, scope: VariableScope)
        requires
            old(self).wf(),
        ensures
            final(self).wf(),
            final(self).decls() == old(self).decls(),
            final(self).vals() == old(self).vals().remove_keys(
                Set::new(|k: Seq<char>| old(self).decls().dom().contains(k) && old(self).decls()[k].scope == scope)),
    {
        let n = self.declarations.len();
        proof { self.declarations.lemma_contents(); }
        let ghost target = Set::new(|k: Seq<char>| old(self).decls().dom().contains(k) && old(self).decls()[k].scope == scope);
        let mut i: usize = 0;
        while i < n
            invariant
                self.wf(),
                self.declarations == old(self).declarations,
                n == self.declarations.key_seq().len(),
                i <= n,
                target == Set::new(|k: Seq<char>| old(self).decls().dom().contains(k) && old(self).decls()[k].scope == scope),
                self.vals() == old(self).vals().remove_keys(Set::new(|k: Seq<char>| exists|j: int| 0 <= j < i && self.declarations.key_seq()[j] == k && target.contains(k))),
            decreases n - i,
        {
            proof { self.declarations.lemma_contents(); }
            let ghost before = self.vals();
            if self.declarations.value_at(i).scope == scope {
                let key = self.declarations.key_at(i).clone();
                self.values.remove(&key);
                assert(self.vals() =~= before.remove(key@));
            }
            assert(self.vals() =~= old(self).vals().remove_keys(Set::new(|k: Seq<char>| exists|j: int| 0 <= j < i + 1 && self.declarations.key_seq()[j] == k && target.contains(k))));
            i = i + 1;
        }
        proof {
            self.declarations.lemma_contents();
            assert(Set::new(|k: Seq<char>| exists|j: int| 0 <= j < n && self.declarations.key_seq()[j] == k && target.contains(k)) =~= target);
        }
    }

    pub fn values(&self) -> (r: &StrMap<String>)
        requires
            self.wf(),
        ensures
            r.wf(),
            r@.map_values(|s: String| s@) == self.vals(),
            r.key_seq() == self.val_keys(),
    {
        &self.values
    }

    /// The stored values, for direct editing; the declarations stay as they
    /// are, and the store reads back whatever the map holds afterwards.
    pub fn values_mut(&mut self) -> (r: &mut StrMap<String>)
        requires
            old(self).wf(),
        ensures
            r.wf(),
            (*r)@.map_values(|s: String| s@) == old(self).vals(),
            final(r).wf() ==> final(self).wf(),
            final(self).vals() == (*final(r))@.map_values(|s: String| s@),
            final(self).decls() == old(self).decls(),
    {
        &mut self.values
    }

    pub fn declarations(&self) -> (r: &StrMap<VariableDeclaration>)
        requires
            self.wf(),
        ensures
            r.wf(),
            r@ == self.decls(),
    {
        &self.declarations
    }

    /// Substitutes each stored variable into `template`, in ascending key
    /// order, first where it is written `{key}` and then where it is written
    /// `$key`.
    pub fn render_template(&self, template: &str) -> (r: String)
        requires
            self.wf(),
        ensures
            r@ == render_steps(template@, self.val_keys(), self.val_texts(), self.val_keys().len()),
    {
        let mut rendered = chars_of(template);
        let n = self.values.len();
        proof { self.values.lemma_contents(); }
        let mut i: usize = 0;
        while i < n
            invariant
                self.wf(),
                n == self.val_keys().len(),
                n == self.val_texts().len(),
                i <= n,
                rendered@ == render_steps(template@, self.val_keys(), self.val_texts(), i as nat),
            decreases n - i,
        {
            let key = self.values.key_at(i);
            let value = chars_of(self.values.value_at(i).as_str());
            let mut curly: Vec<char> = vec!['{'];
            let curly_tail: Vec<char> = vec!['}'];
            curly = concat_chars(&concat_chars(&curly, key), &curly_tail);
            let dollar_head: Vec<char> = vec!['$'];
            let dollar = concat_chars(&dollar_head, key);
            proof {
                assert(curly@ =~= curly_pattern(key@));
                assert(dollar@ =~= dollar_pattern(key@));
            }
            rendered = replace_all_chars(&rendered, &curly, &value);
            rendered = replace_all_chars(&rendered, &dollar, &value);
            i = i + 1;
        }
        string_from_chars(&rendered)
    }
}

impl Default for VariableStore {
    fn default() -> (r: Self)
        ensures
            r.wf(),
            r.vals() == Map::<Seq<char>, Seq<char>>::empty(),
            r.decls() == Map::<Seq<char>, VariableDeclaration>::empty(),
    {
        VariableStore::empty()
    }
}

/// Checks `value` against the declared type `expected` of `key`.
pub fn validate_value(key: &str, value: &str, expected: &VariableType) -> (r: Result<(), VariableError>)
    ensures
        r is Ok <==> value_fits_type(value@, *expected),
        r matches Err(e) ==> e matches VariableError::TypeMismatch { key: k, expected: t, actual: a }
            && k@ == key@ && t == *expected && a@ == value@,
{
    let ok = match expected {
        VariableType::String => true,
        VariableType::Bool => {
            let v = chars_of(value);
            let t: Vec<char> = vec!['t', 'r', 'u', 'e'];
            let f: Vec<char> = vec!['f', 'a', 'l', 's', 'e'];
            proof {
                assert(t@ =~= seq_true());
                assert(f@ =~= seq_false());
            }
            chars_eq(&v, &t) || chars_eq(&v, &f)
        },
        VariableType::Int => text_parses_as_i64(&chars_of(value)),
    };
    if ok {
        Ok(())
    } else {
        Err(VariableError::TypeMismatch {
            key: string_from_chars(&chars_of(key)),
            expected: *expected,
            actual: string_from_chars(&chars_of(value)),
        })
    }
}


/// A value that was accepted reads back as written, and every other key is
/// untouched; a refused value changes nothing.
pub proof fn law_set_then_get(before: VariableStore, after: VariableStore, key: Seq<char>, value: Seq<char>, accepted: bool, other: Seq<char>)
    requires
        accepted ==> after.vals() == before.vals().insert(key, value),
        !accepted ==> after.vals() == before.vals(),
        other != key,
    ensures
        accepted ==> after.vals().dom().contains(key) && after.vals()[key] == value,
        after.vals().dom().contains(other) == before.vals().dom().contains(other),
        after.vals().dom().contains(other) ==> after.vals()[other] == before.vals()[other],
{
}

/// Clearing a scope removes exactly the values declared in that scope.
pub proof fn law_clear_scoped_removes_only_that_scope(before: VariableStore, after: VariableStore, scope: VariableScope, key: Seq<char>)
    requires
        after.decls() == before.decls(),
        after.vals() == before.vals().remove_keys(
            Set::new(|k: Seq<char>| before.decls().dom().contains(k) && before.decls()[k].scope == scope)),
    ensures
        after.vals().dom().contains(key) <==> before.vals().dom().contains(key)
            && !(before.decls().dom().contains(key) && before.decls()[key].scope == scope),
        after.vals().dom().contains(key) ==> after.vals()[key] == before.vals()[key],
{
}

} // verus!
