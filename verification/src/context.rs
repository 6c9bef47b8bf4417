//! The type-name registry the syntax layer consults to tell identifiers
//! from type names: an explicit context object with an initialisation step
//! and a narrow query capability, passed by reference to whoever needs it.

use vstd::prelude::*;
use vstd::string::*;

use crate::parse_error::ParseError;
use crate::span::Span;

verus! {

/// What the registry knows of one type name.
#[derive(Debug)]
pub struct TypeInformation {
    pub is_native: bool,
    pub span: Span,
}

/// The mathematical value of a registry entry.
pub struct TypeInfoV {
    pub is_native: bool,
    pub content: Seq<char>,
    pub start: int,
    pub end: int,
}

impl View for TypeInformation {
    type V = TypeInfoV;

    open spec fn view(&self) -> TypeInfoV {
        TypeInfoV {
            is_native: self.is_native,
            content: self.span.content@,
            start: self.span.start as int,
            end: self.span.end as int,
        }
    }
}

/// The entry of a built-in type: native, with the empty span.
pub open spec fn native_info() -> TypeInfoV {
    TypeInfoV { is_native: true, content: Seq::empty(), start: 0, end: 0 }
}

impl Clone for TypeInformation {
    fn clone(&self) -> (r: TypeInformation)
        ensures
            r == *self,
    {
        TypeInformation { is_native: self.is_native, span: self.span.clone() }
    }
}

impl Default for TypeInformation {
    /// A non-native entry with the empty span.
    fn default() -> (r: TypeInformation)
        ensures
            r@ == (TypeInfoV { is_native: false, content: Seq::empty(), start: 0, end: 0 }),
    {
        TypeInformation { is_native: false, span: Span::default() }
    }
}

impl TypeInformation {
    /// The entry recorded for a language built-in type.
    pub fn native() -> (r: TypeInformation)
        ensures
            r@ == native_info(),
    {
        TypeInformation { is_native: true, span: Span::default() }
    }
}

/// The registry's entries as a map, later entries winning.
pub open spec fn ctx_map(es: Seq<(String, TypeInformation)>) -> Map<Seq<char>, TypeInfoV>
    decreases es.len(),
{
    if es.len() == 0 {
        Map::empty()
    } else {
        ctx_map(es.drop_last()).insert(es.last().0@, es.last().1@)
    }
}

/// The registry of known type names.
pub struct ParseContext {
    types: Vec<(String, TypeInformation)>,
}

impl View for ParseContext {
    type V = Map<Seq<char>, TypeInfoV>;

    closed spec fn view(&self) -> Map<Seq<char>, TypeInfoV> {
        ctx_map(self.types@)
    }
}

impl ParseContext {
    /// A fresh registry holding exactly the native types `int`, `float`,
    /// `char` and `str`.
    pub fn init() -> (r: ParseContext)
        ensures
            r@ == (Map::<Seq<char>, TypeInfoV>::empty().insert("int"@, native_info()).insert(
                "float"@,
                native_info(),
            ).insert("char"@, native_info()).insert("str"@, native_info())),
    {
        let mut types: Vec<(String, TypeInformation)> = Vec::new();
        types.push(("int".to_owned(), TypeInformation::native()));
        types.push(("float".to_owned(), TypeInformation::native()));
        types.push(("char".to_owned(), TypeInformation::native()));
        types.push(("str".to_owned(), TypeInformation::native()));
        let r = ParseContext { types };
        proof {
            reveal_with_fuel(ctx_map, 5);
            let es = r.types@;
            assert(es.drop_last() =~= es.subrange(0, 3));
            assert(es.subrange(0, 3).drop_last() =~= es.subrange(0, 2));
            assert(es.subrange(0, 2).drop_last() =~= es.subrange(0, 1));
            assert(es.subrange(0, 1).drop_last() =~= es.subrange(0, 0));
            assert(es.subrange(0, 0) =~= Seq::<(String, TypeInformation)>::empty());
            assert(es.subrange(0, 3).last() == es[2]);
            assert(es.subrange(0, 2).last() == es[1]);
            assert(es.subrange(0, 1).last() == es[0]);
            assert(r@ =~= Map::<Seq<char>, TypeInfoV>::empty().insert("int"@, native_info()).insert(
                "float"@,
                native_info(),
            ).insert("char"@, native_info()).insert("str"@, native_info()));
        }
        r
    }

    /// Record a new type name; a name already present is refused and the
    /// registry is unchanged.
    pub fn add_type(&mut self, ident: String, info: TypeInformation) -> (r: Result<
        (),
        ParseError,
    >)
        ensures
            old(self)@.contains_key(ident@) ==> ({
                &&& final(self)@ == old(self)@
                &&& (r matches Err(e) && e matches ParseError::DuplicateType { ident: i } && i@
                    == ident@)
            }),
            !old(self)@.contains_key(ident@) ==> ({
                &&& final(self)@ == old(self)@.insert(ident@, info@)
                &&& r is Ok
            }),
    {
        if self.lookup(&ident).is_some() {
            return Err(ParseError::DuplicateType { ident });
        }
        let ghost before = self.types@;
        let ghost iv = ident@;
        let ghost inf = info@;
        self.types.push((ident, info));
        proof {
            assert(self.types@.drop_last() =~= before);
            assert(self.types@.last().0@ == iv);
            assert(self.types@.last().1@ == inf);
        }
        Ok(())
    }

    /// The entry stored for a name, if there is one.
    pub fn is_type(&self, ident: &String) -> (r: Option<TypeInformation>)
        ensures
            match r {
                Some(ti) => self@.contains_key(ident@) && ti@ == self@[ident@],
                None => !self@.contains_key(ident@),
            },
    {
        match self.lookup(ident) {
            Some(ti) => Some(ti.clone()),
            None => None,
        }
    }

    fn lookup(&self, ident: &String) -> (r: Option<&TypeInformation>)
        ensures
            match r {
                Some(ti) => self@.contains_key(ident@) && ti@ == self@[ident@],
                None => !self@.contains_key(ident@),
            },
    {
        let ghost es = self.types@;
        let mut i: usize = self.types.len();
        proof {
            assert(es.subrange(0, es.len() as int) =~= es);
        }
        while i > 0
            invariant
                i <= es.len(),
                es == self.types@,
                ctx_map(es).contains_key(ident@) == ctx_map(es.subrange(0, i as int)).contains_key(
                    ident@,
                ),
                ctx_map(es.subrange(0, i as int)).contains_key(ident@) ==> ctx_map(es)[ident@]
                    == ctx_map(es.subrange(0, i as int))[ident@],
            decreases i,
        {
            proof {
                assert(es.subrange(0, i as int).drop_last() =~= es.subrange(0, i as int - 1));
                assert(es.subrange(0, i as int).last() == es[i as int - 1]);
            }
            if crate::chars::str_eq(self.types[i - 1].0.as_str(), ident.as_str()) {
                return Some(&self.types[i - 1].1);
            }
            i -= 1;
        }
        proof {
            assert(es.subrange(0, 0) =~= Seq::<(String, TypeInformation)>::empty());
        }
        None
    }
}

} // verus!
