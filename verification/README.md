# bitfld

Layouts of bitfields over integral types, written as in a hardware manual, with a proof of
what they mean.

```text
{
    pub struct Example(u32);
    {
        let foo @ 21..14;
        let custom @ 13..10: CustomFieldRepr;
        let bar @ 9..8 = 0b11;
        let baz @ 7;
        #[unshifted]
        let frob @ 6..4;
        let __ @ 3..2 = 1;
        let __ @ 1..0;
    }
}
```

A declaration names the bits of a field, high bit first, or a single bit. Behind the colon may
stand a type that represents the field's values, behind the equals sign a default. A field named
`__` is reserved, and its value, if there is one, is what the bits are reserved as. Doc comments
go to the accessors. The getter and the setter of an `#[unshifted]` field leave its bits where
they are. The same fields may be spelled as types: `let foo: Bits<21, 14>;`,
`let custom: Bits<13, 10, CustomFieldRepr>;`, `let baz: Bit<7>;`, `let _: Bits<3, 2> = 1;`.

`bitfld::layout` takes the text of a layout and returns the source text of a `Copy` wrapper type
over the base type: constants for masks, shifts and defaults, `new`, `Default`, `From`, `Deref`
and `DerefMut`, a getter and a setter for each named field, iteration over all fields, and
formatting. `bitfld::bitfield_repr` returns the source text of a type that represents a field's
values.

## Modules

| module | holds |
| --- | --- |
| `syntax` | Rust syntax as plain values, read by `syn` |
| `declaration`, `bitfield`, `typedef`, `base`, `layout` | the layout language and its rules |
| `accessors`, `constants`, `format`, `expand` | the source text that a layout stands for |
| `word` | bits and bit ranges of a word |
| `register`, `instance` | masks, defaults, accessors and iteration of a layout's words |
| `radix`, `display` | what words look like in text |
| `acceptance` | which fields make a layout |
| `laws` | what holds of every register |
| `text`, `error` | text and templates; why a layout is rejected |

`app/` puts `layout` and `bitfield_repr` behind the compiler's token streams. The dependencies are
built without their default features, and `proc-macro2`'s `proc-macro` feature has to stay off:
the parsers then depend on the text alone, as the proofs take them to.
