//! The colors in which method names are printed.

use vstd::prelude::*;

use crate::endpoint::Endpoint;


verus! {

/// The colors of the terminal that the program uses.
#[derive(Debug, Clone, Copy, PartialEq, Eq, Structural)]
pub enum Color {
    Blue,
    Green,
    Yellow,
    Red,
    Cyan,
    White,
}

/// The color of a method name.
pub open spec fn spec_method_color(method: Seq<char>) -> Color {
    if method == seq!['G', 'E', 'T'] {
        Color::Blue
    } else if method == seq!['P', 'O', 'S', 'T'] {
        Color::Green
    } else if method == seq!['P', 'U', 'T'] || method == seq!['P', 'A', 'T', 'C', 'H'] {
        Color::Yellow
    } else if method == seq!['D', 'E', 'L', 'E', 'T', 'E'] {
        Color::Red
    } else if method == seq!['O', 'P', 'T', 'I', 'O', 'N', 'S'] || method == seq!['H', 'E', 'A', 'D'] {
        Color::Cyan
    } else {
        Color::White
    }
}

/// The color of a method name: blue for `GET`, green for `POST`, yellow for
/// `PUT` and `PATCH`, red for `DELETE`, cyan for `OPTIONS` and `HEAD`, white
/// otherwise.
pub fn method_color(method: &str) -> (r: Color)
    ensures
        r == spec_method_color(method@),
{
    proof {
        reveal_strlit("GET");
        reveal_strlit("POST");
        reveal_strlit("PUT");
        reveal_strlit("PATCH");
        reveal_strlit("DELETE");
        reveal_strlit("OPTIONS");
        reveal_strlit("HEAD");
        assert("GET"@ =~= seq!['G', 'E', 'T']);
        assert("POST"@ =~= seq!['P', 'O', 'S', 'T']);
        assert("PUT"@ =~= seq!['P', 'U', 'T']);
        assert("PATCH"@ =~= seq!['P', 'A', 'T', 'C', 'H']);
        assert("DELETE"@ =~= seq!['D', 'E', 'L', 'E', 'T', 'E']);
        assert("OPTIONS"@ =~= seq!['O', 'P', 'T', 'I', 'O', 'N', 'S']);
        assert("HEAD"@ =~= seq!['H', 'E', 'A', 'D']);
    }
    if crate::text::str_eq(method, "GET") {
        Color::Blue
    } else if crate::text::str_eq(method, "POST") {
        Color::Green
    } else if crate::text::str_eq(method, "PUT") || crate::text::str_eq(method, "PATCH") {
        Color::Yellow
    } else if crate::text::str_eq(method, "DELETE") {
        Color::Red
    } else if crate::text::str_eq(method, "OPTIONS") || crate::text::str_eq(method, "HEAD") {
        Color::Cyan
    } else {
        Color::White
    }
}

/// How a method name is painted: in its color, or dimmed for `---`.
#[derive(Debug, Clone, Copy, PartialEq, Eq, Structural)]
pub enum MethodStyle {
    Colored(Color),
    Dimmed,
}

/// How a method name is painted: dimmed for `---`, else in the color of
/// `method_color`.
pub fn colored_method(value: &str) -> (r: MethodStyle)
    ensures
        r == (if value@ == seq!['-', '-', '-'] {
            MethodStyle::Dimmed
        } else {
            MethodStyle::Colored(spec_method_color(value@))
        }),
{
    proof {
        reveal_strlit("---");
        assert("---"@ =~= seq!['-', '-', '-']);
    }
    if crate::text::str_eq(value, "---") {
        MethodStyle::Dimmed
    } else {
        MethodStyle::Colored(method_color(value))
    }
}

impl Endpoint {
    /// How the method of the endpoint is painted.
    pub fn colored_method(&self) -> (r: MethodStyle)
        ensures
            r == (if self.method@ == seq!['-', '-', '-'] {
                MethodStyle::Dimmed
            } else {
                MethodStyle::Colored(spec_method_color(self.method@))
            }),
    {
        colored_method(self.method.as_str())
    }
}

} // verus!
