//! Identifiers as the syntax layer classifies them: plain names, type
//! names, native type names, and the reserved words.

use vstd::prelude::*;
use vstd::string::*;

use crate::parse_error::{bad_fromstr, ParseError};
use crate::span::Span;

verus! {

#[derive(Debug, Clone, Copy, PartialEq, Eq, Structural, Hash)]
pub enum ReservedIdent {
    Slf,
}

impl ReservedIdent {
    /// Whether a name is a reserved identifier.
    pub fn is_reserved(s: &String) -> (r: bool)
        ensures
            r == (s@ == "self"@),
    {
        crate::chars::str_eq(s.as_str(), "self")
    }

    /// The reserved identifier a name denotes, or a conversion error.
    pub fn try_from_name(s: &String) -> (r: Result<ReservedIdent, ParseError>)
        ensures
            s@ == "self"@ ==> (r matches Ok(ri) && ri == ReservedIdent::Slf),
            s@ != "self"@ ==> (r matches Err(e) && e matches ParseError::FromStrError {
                reason,
                origin,
            } && reason@ == s@ && origin@ == "reserved-ident-tryfrom"@),
    {
        if crate::chars::str_eq(s.as_str(), "self") {
            Ok(ReservedIdent::Slf)
        } else {
            Err(bad_fromstr(s.clone(), "reserved-ident-tryfrom"))
        }
    }
}

#[derive(Debug)]
pub enum Ident {
    Identifier { name: String, span: Span },
    Type { name: String, span: Span },
    Native { name: String, span: Span },
    Reserved { name: String, span: Span, ident: ReservedIdent },
}

impl Ident {
    /// The name this identifier carries.
    pub open spec fn spec_name(&self) -> Seq<char> {
        match self {
            Ident::Identifier { name, .. } => name@,
            Ident::Type { name, .. } => name@,
            Ident::Native { name, .. } => name@,
            Ident::Reserved { name, .. } => name@,
        }
    }

    /// The span this identifier carries.
    pub open spec fn spec_span(&self) -> Span {
        match self {
            Ident::Identifier { span, .. } => *span,
            Ident::Type { span, .. } => *span,
            Ident::Native { span, .. } => *span,
            Ident::Reserved { span, .. } => *span,
        }
    }

    /// A plain identifier, unless the name is reserved, in which case the
    /// reserved form is built.
    pub fn ident(name: String, span: Span) -> (r: Result<Ident, ParseError>)
        ensures
            name@ == "self"@ ==> (r matches Ok(id) && id matches Ident::Reserved {
                name: n,
                ident,
                ..
            } && n@ == name@ && ident == ReservedIdent::Slf),
            name@ != "self"@ ==> (r matches Ok(id) && id matches Ident::Identifier { name: n, .. }
                && n@ == name@),
            r matches Ok(id) ==> id.spec_span() == span && id.spec_name() == name@,
    {
        if ReservedIdent::is_reserved(&name) {
            let ri = ReservedIdent::try_from_name(&name)?;
            Ok(Ident::Reserved { name, span, ident: ri })
        } else {
            Ok(Ident::Identifier { name, span })
        }
    }

    /// Whether this identifier names a type, built-in or declared.
    pub fn is_type(&self) -> (r: bool)
        ensures
            r == (self is Type || self is Native),
    {
        matches!(self, Ident::Type { .. }) || matches!(self, Ident::Native { .. })
    }

    /// Whether this identifier may be used as an ordinary name: every form
    /// but the reserved one.
    pub fn is_reserved(&self) -> (r: bool)
        ensures
            r == !(self is Reserved),
    {
        !matches!(self, Ident::Reserved { .. })
    }

    /// The span this identifier covers.
    pub fn span(&self) -> (r: Span)
        ensures
            r == self.spec_span(),
    {
        match self {
            Ident::Identifier { span, .. } => span.clone(),
            Ident::Type { span, .. } => span.clone(),
            Ident::Native { span, .. } => span.clone(),
            Ident::Reserved { span, .. } => span.clone(),
        }
    }

    /// The name this identifier carries, as a fresh string.
    pub fn name(&self) -> (r: String)
        ensures
            r@ == self.spec_name(),
    {
        match self {
            Ident::Identifier { name, .. } => name.clone(),
            Ident::Type { name, .. } => name.clone(),
            Ident::Native { name, .. } => name.clone(),
            Ident::Reserved { name, .. } => name.clone(),
        }
    }
}

} // verus!
