//! Character classes and classified characters.
use vstd::prelude::*;

use crate::text::push_chars;

verus! {

/// Datum character class.
#[derive(Clone, Copy, PartialEq, Eq, Debug, Structural)]
pub enum DatumCharClass {
    /// Escaped characters, anything else
    Content,
    /// 0-32 and 127 but not 10
    Whitespace,
    /// 10
    Newline,
    /// ';'
    LineComment,
    /// '"'
    String,
    /// '\''
    Quote,
    /// '('
    ListStart,
    /// ')'
    ListEnd,
    /// '#'
    SpecialID,
    /// '-'
    Sign,
    /// '0' - '9'
    Digit,
}

impl View for DatumCharClass {
    type V = DatumCharClass;

    open spec fn view(&self) -> DatumCharClass {
        *self
    }
}

/// The class of an unescaped character; backslash, the escape character, has none.
pub open spec fn class_of(v: char) -> Option<DatumCharClass> {
    if v == '\\' {
        None
    } else if v == '\n' {
        Some(DatumCharClass::Newline)
    } else if v <= ' ' || v == '\x7F' {
        Some(DatumCharClass::Whitespace)
    } else if v == ';' {
        Some(DatumCharClass::LineComment)
    } else if v == '"' {
        Some(DatumCharClass::String)
    } else if v == '\'' {
        Some(DatumCharClass::Quote)
    } else if v == '(' {
        Some(DatumCharClass::ListStart)
    } else if v == ')' {
        Some(DatumCharClass::ListEnd)
    } else if v == '#' {
        Some(DatumCharClass::SpecialID)
    } else if v == '-' {
        Some(DatumCharClass::Sign)
    } else if '0' <= v <= '9' {
        Some(DatumCharClass::Digit)
    } else {
        Some(DatumCharClass::Content)
    }
}

impl DatumCharClass {
    /// Classes that may continue an identifier or a number once it has started.
    pub open spec fn is_potential_identifier(self) -> bool {
        self is Content || self is Sign || self is Digit || self is SpecialID
    }

    /// Classes that start a number.
    pub open spec fn is_numeric_start(self) -> bool {
        self is Sign || self is Digit
    }

    /// If this character class is a potential identifier.
    pub fn potential_identifier(&self) -> (r: bool)
        ensures
            r == self.is_potential_identifier(),
    {
        match self {
            DatumCharClass::Content | DatumCharClass::Sign | DatumCharClass::Digit
            | DatumCharClass::SpecialID => true,
            _ => false,
        }
    }

    /// If this character class starts a number.
    pub fn numeric_start(&self) -> (r: bool)
        ensures
            r == self.is_numeric_start(),
    {
        match self {
            DatumCharClass::Sign | DatumCharClass::Digit => true,
            _ => false,
        }
    }

    /// Identifies a character.
    /// Backslash is a 'meta-character' and doesn't count, returning `None`.
    pub fn identify(v: char) -> (r: Option<DatumCharClass>)
        ensures
            r == class_of(v),
    {
        if v == '\\' {
            None
        } else if v == '\n' {
            Some(DatumCharClass::Newline)
        } else if v <= ' ' || v == '\x7F' {
            Some(DatumCharClass::Whitespace)
        } else if v == ';' {
            Some(DatumCharClass::LineComment)
        } else if v == '"' {
            Some(DatumCharClass::String)
        } else if v == '\'' {
            Some(DatumCharClass::Quote)
        } else if v == '(' {
            Some(DatumCharClass::ListStart)
        } else if v == ')' {
            Some(DatumCharClass::ListEnd)
        } else if v == '#' {
            Some(DatumCharClass::SpecialID)
        } else if v == '-' {
            Some(DatumCharClass::Sign)
        } else if v >= '0' && v <= '9' {
            Some(DatumCharClass::Digit)
        } else {
            Some(DatumCharClass::Content)
        }
    }
}

/// What a classified character is: its value and its class.
pub struct DatumCharView {
    pub ch: char,
    pub class: DatumCharClass,
}

impl DatumCharView {
    /// Every classified character either keeps the class that it has unescaped,
    /// or is content.
    pub open spec fn wf(self) -> bool {
        self.class is Content || class_of(self.ch) == Some(self.class)
    }
}

/// The text that reads back as the given classified character.
pub open spec fn emit_of(v: DatumCharView) -> Seq<char> {
    if class_of(v.ch) == Some(v.class) {
        seq![v.ch]
    } else if v.ch == '\n' {
        seq!['\\', 'n']
    } else if v.ch == '\r' {
        seq!['\\', 'r']
    } else if v.ch == '\t' {
        seq!['\\', 't']
    } else {
        seq!['\\', v.ch]
    }
}

/// The content character for a value.
pub open spec fn content_view(v: char) -> DatumCharView {
    DatumCharView { ch: v, class: DatumCharClass::Content }
}

/// The character read unescaped, with its own class, if it has one.
pub open spec fn identify_view(v: char) -> Option<DatumCharView> {
    match class_of(v) {
        None => None,
        Some(c) => Some(DatumCharView { ch: v, class: c }),
    }
}

/// The character as it stands inside an identifier: unescaped where its own class
/// may continue an identifier, else as content.
pub open spec fn potential_identifier_view(v: char) -> DatumCharView {
    match class_of(v) {
        Some(c) => if c.is_potential_identifier() {
            DatumCharView { ch: v, class: c }
        } else {
            content_view(v)
        },
        None => content_view(v),
    }
}

/// Datum character with class.
/// It is not possible to create an instance of this type which cannot be emitted.
#[derive(Clone, Copy, PartialEq, Eq, Debug, Structural)]
pub struct DatumChar {
    ch: char,
    class: DatumCharClass,
}

impl View for DatumChar {
    type V = DatumCharView;

    closed spec fn view(&self) -> DatumCharView {
        DatumCharView { ch: self.ch, class: self.class }
    }
}

impl DatumChar {
    #[verifier::type_invariant]
    spec fn inv(&self) -> bool {
        self@.wf()
    }

    /// Returns the character value.
    pub fn char(&self) -> (r: char)
        ensures
            r == self@.ch,
            self@.wf(),
    {
        proof {
            use_type_invariant(self);
        }
        self.ch
    }

    /// Returns the class.
    pub fn class(&self) -> (r: DatumCharClass)
        ensures
            r == self@.class,
            self@.wf(),
    {
        proof {
            use_type_invariant(self);
        }
        self.class
    }

    /// Returns how to emit the character: the text that reads back as it.
    pub fn emit(&self) -> (r: Vec<char>)
        ensures
            r@ == emit_of(self@),
    {
        match DatumCharClass::identify(self.ch) {
            Some(c) => {
                if c == self.class {
                    return vec![self.ch];
                }
            },
            None => {},
        }
        if self.ch == '\n' {
            vec!['\\', 'n']
        } else if self.ch == '\r' {
            vec!['\\', 'r']
        } else if self.ch == '\t' {
            vec!['\\', 't']
        } else {
            vec!['\\', self.ch]
        }
    }

    /// Appends the text that will be read back as this character.
    pub fn write(&self, f: &mut String)
        ensures
            final(f)@ == old(f)@ + emit_of(self@),
    {
        let e = self.emit();
        push_chars(f, &e);
    }

    /// Identifies an unescaped character; backslash, the escape character, gives `None`.
    pub fn identify(v: char) -> (r: Option<DatumChar>)
        ensures
            r is None <==> identify_view(v) is None,
            r is Some ==> Some(r->0@) == identify_view(v),
    {
        match DatumCharClass::identify(v) {
            None => None,
            Some(class) => Some(DatumChar { ch: v, class }),
        }
    }

    /// Creates a content character for the given value.
    pub fn content(v: char) -> (r: DatumChar)
        ensures
            r@ == content_view(v),
    {
        DatumChar { ch: v, class: DatumCharClass::Content }
    }

    /// Creates a potential identifier character for the given value.
    pub fn potential_identifier(v: char) -> (r: DatumChar)
        ensures
            r@ == potential_identifier_view(v),
    {
        match DatumCharClass::identify(v) {
            None => Self::content(v),
            Some(class) => {
                if class.potential_identifier() {
                    DatumChar { ch: v, class }
                } else {
                    Self::content(v)
                }
            },
        }
    }
}

impl Default for DatumChar {
    /// A whitespace space character.
    fn default() -> (r: DatumChar)
        ensures
            r@ == (DatumCharView { ch: ' ', class: DatumCharClass::Whitespace }),
    {
        DatumChar { ch: ' ', class: DatumCharClass::Whitespace }
    }
}

} // verus!
