//! Appearance payloads.
use vstd::prelude::*;

use crate::wire;
use crate::wire::{Decoder, Encoder, Parsed, SchemaError};

verus! {

/// `OMAPPPB1`
pub const APPEARANCE_PUBLISH_MAGIC: [u8; 8] = [79, 77, 65, 80, 80, 80, 66, 49];

/// Whether a theme is dark or light.
#[derive(Clone, Copy, Debug, PartialEq, Eq, Structural)]
pub enum AppearanceScheme {
    Dark,
    Light,
}

impl AppearanceScheme {
    /// The byte that stands for this value.
    pub open spec fn code(self) -> u8 {
        match self {
            AppearanceScheme::Dark => 0,
            AppearanceScheme::Light => 1,
        }
    }

    pub open spec fn of_code(code: u8) -> Result<Self, SchemaError> {
        if code == 0 {
            Ok(AppearanceScheme::Dark)
        } else if code == 1 {
            Ok(AppearanceScheme::Light)
        } else {
            Err(SchemaError::Malformed)
        }
    }

    /// Reads the byte of a value.
    pub open spec fn parse(s: Seq<u8>) -> Parsed<Self> {
        match wire::parse_u8(s) {
            Err(e) => Err(e),
            Ok((code, rest)) => match Self::of_code(code) {
                Err(e) => Err(e),
                Ok(value) => Ok((value, rest)),
            },
        }
    }

    pub(crate) fn to_code(self) -> (code: u8)
        ensures
            code == self.code(),
    {
        match self {
            AppearanceScheme::Dark => 0,
            AppearanceScheme::Light => 1,
        }
    }

    pub(crate) fn from_code(code: u8) -> (value: Result<Self, SchemaError>)
        ensures
            value == Self::of_code(code),
    {
        match code {
            0 => Ok(AppearanceScheme::Dark),
            1 => Ok(AppearanceScheme::Light),
            _ => Err(SchemaError::Malformed),
        }
    }
}

/// An opaque color.
#[derive(Clone, Copy, Debug, PartialEq, Eq, Structural)]
pub struct AppearanceColor {
    pub red: u8,
    pub green: u8,
    pub blue: u8,
}

/// Three bytes.
pub open spec fn put_color(color: AppearanceColor, rest: Seq<u8>) -> Seq<u8> {
    wire::put_u8(color.red, wire::put_u8(color.green, wire::put_u8(color.blue, rest)))
}

pub open spec fn parse_color(s: Seq<u8>) -> Parsed<AppearanceColor> {
    match wire::parse_u8(s) {
        Err(e) => Err(e),
        Ok((red, s1)) => match wire::parse_u8(s1) {
            Err(e) => Err(e),
            Ok((green, s2)) => match wire::parse_u8(s2) {
                Err(e) => Err(e),
                Ok((blue, rest)) => Ok((AppearanceColor { red, green, blue }, rest)),
            },
        },
    }
}

pub broadcast proof fn lemma_parse_put_color(color: AppearanceColor, rest: Seq<u8>)
    ensures
        #[trigger] parse_color(put_color(color, rest)) == Ok::<
            (AppearanceColor, Seq<u8>),
            SchemaError,
        >((color, rest)),
{
    broadcast use wire::group_wire;

}

pub broadcast proof fn lemma_put_parse_color(s: Seq<u8>)
    ensures
        #[trigger] parse_color(s) matches Ok((color, rest)) ==> s == put_color(color, rest),
{
    broadcast use wire::group_wire;

}

fn write_color(encoder: &mut Encoder, color: AppearanceColor)
    ensures
        forall|rest: Seq<u8>|
            #[trigger] (final(encoder).bytes@ + rest) == old(encoder).bytes@ + put_color(
                color,
                rest,
            ),
{
    encoder.byte(color.red);
    encoder.byte(color.green);
    encoder.byte(color.blue);
}

fn read_color(decoder: &mut Decoder<'_>) -> (color: Result<AppearanceColor, SchemaError>)
    ensures
        wire::reads(color, final(decoder).remaining@, parse_color(old(decoder).remaining@)),
{
    let red: u8 = decoder.byte()?;
    let green: u8 = decoder.byte()?;
    let blue: u8 = decoder.byte()?;
    Ok(AppearanceColor { red, green, blue })
}

/// A theme that a provider publishes.
#[derive(Clone, Debug, PartialEq, Eq)]
pub struct AppearancePublish {
    pub provider: String,
    pub scheme: AppearanceScheme,
    pub background: AppearanceColor,
    pub foreground: AppearanceColor,
    pub accent: AppearanceColor,
    pub selection: AppearanceColor,
    pub muted: AppearanceColor,
    pub destructive: AppearanceColor,
}

/// [`AppearancePublish`], field by field.
#[verifier::ext_equal]
pub struct AppearancePublishView {
    pub provider: Seq<char>,
    pub scheme: AppearanceScheme,
    pub background: AppearanceColor,
    pub foreground: AppearanceColor,
    pub accent: AppearanceColor,
    pub selection: AppearanceColor,
    pub muted: AppearanceColor,
    pub destructive: AppearanceColor,
}

impl View for AppearancePublish {
    type V = AppearancePublishView;

    open spec fn view(&self) -> AppearancePublishView {
        AppearancePublishView {
            provider: self.provider@,
            scheme: self.scheme,
            background: self.background,
            foreground: self.foreground,
            accent: self.accent,
            selection: self.selection,
            muted: self.muted,
            destructive: self.destructive,
        }
    }
}

impl AppearancePublishView {
    /// The bytes of this payload, or why it has none.
    pub open spec fn payload(self) -> Result<Seq<u8>, SchemaError> {
        if self.provider.len() == 0 {
            Err(SchemaError::Malformed)
        } else if !(wire::text_fits(self.provider)) {
            Err(SchemaError::LimitExceeded)
        } else {
            wire::sealed(
                APPEARANCE_PUBLISH_MAGIC@ + wire::put_text(
                    self.provider,
                    wire::put_u8(
                        self.scheme.code(),
                        put_color(
                            self.background,
                            put_color(
                                self.foreground,
                                put_color(
                                    self.accent,
                                    put_color(
                                        self.selection,
                                        put_color(
                                            self.muted,
                                            put_color(self.destructive, Seq::empty()),
                                        ),
                                    ),
                                ),
                            ),
                        ),
                    ),
                ),
            )
        }
    }

    /// What is read from `bytes`.
    pub open spec fn read(bytes: Seq<u8>) -> Result<Self, SchemaError> {
        match wire::parse_open(bytes, APPEARANCE_PUBLISH_MAGIC@) {
            Err(e) => Err(e),
            Ok(s0) => {
                match wire::parse_text(s0) {
                    Err(e) => Err(e),
                    Ok((provider, s1)) => {
                        if provider.len() == 0 {
                            Err(SchemaError::Malformed)
                        } else {
                            match AppearanceScheme::parse(s1) {
                                Err(e) => Err(e),
                                Ok((scheme, s2)) => {
                                    match parse_color(s2) {
                                        Err(e) => Err(e),
                                        Ok((background, s3)) => {
                                            match parse_color(s3) {
                                                Err(e) => Err(e),
                                                Ok((foreground, s4)) => {
                                                    match parse_color(s4) {
                                                        Err(e) => Err(e),
                                                        Ok((accent, s5)) => {
                                                            match parse_color(s5) {
                                                                Err(e) => Err(e),
                                                                Ok((selection, s6)) => {
                                                                    match parse_color(s6) {
                                                                        Err(e) => Err(e),
                                                                        Ok((muted, s7)) => {
                                                                            match parse_color(s7) {
                                                                                Err(e) => Err(e),
                                                                                Ok(
                                                                                    (
                                                                                        destructive,
                                                                                        s8
                                                                                    ),
                                                                                ) => {
                                                                                    wire::parse_end(
                                                                                        s8,
                                                                                        Self {
                                                                                            provider,
                                                                                            scheme,
                                                                                            background,
                                                                                            foreground,
                                                                                            accent,
                                                                                            selection,
                                                                                            muted,
                                                                                            destructive,
                                                                                        },
                                                                                    )
                                                                                },
                                                                            }
                                                                        },
                                                                    }
                                                                },
                                                            }
                                                        },
                                                    }
                                                },
                                            }
                                        },
                                    }
                                },
                            }
                        }
                    },
                }
            },
        }
    }

    /// What was written is read back.
    pub proof fn round_trip(self)
        ensures
            self.payload() matches Ok(bytes) ==> Self::read(bytes) == Ok::<Self, SchemaError>(self),
    {
        broadcast use {wire::group_wire, lemma_parse_put_color, lemma_put_parse_color};

        wire::lemma_pow256();
    }

    /// What is read has no other payload than the bytes it was read from.
    pub proof fn canonical(bytes: Seq<u8>)
        ensures
            Self::read(bytes) matches Ok(value) ==> value.payload() == Ok::<Seq<u8>, SchemaError>(
                bytes,
            ),
    {
        broadcast use {wire::group_wire, lemma_parse_put_color, lemma_put_parse_color};

    }
}

impl AppearancePublish {
    pub fn encode(&self) -> (payload: Result<Vec<u8>, SchemaError>)
        ensures
            wire::outcome(payload) == self@.payload(),
    {
        if self.provider.as_str().is_empty() {
            return Err(SchemaError::Malformed);
        }
        let mut encoder: Encoder = Encoder::new(&APPEARANCE_PUBLISH_MAGIC);
        encoder.string(self.provider.as_str())?;
        encoder.byte(self.scheme.to_code());
        write_color(&mut encoder, self.background);
        write_color(&mut encoder, self.foreground);
        write_color(&mut encoder, self.accent);
        write_color(&mut encoder, self.selection);
        write_color(&mut encoder, self.muted);
        write_color(&mut encoder, self.destructive);
        encoder.finish()
    }

    pub fn decode(bytes: &[u8]) -> (value: Result<Self, SchemaError>)
        ensures
            wire::outcome(value) == AppearancePublishView::read(bytes@),
    {
        let mut decoder: Decoder<'_> = Decoder::new(bytes, &APPEARANCE_PUBLISH_MAGIC)?;
        let provider: String = decoder.string()?;
        if provider.as_str().is_empty() {
            return Err(SchemaError::Malformed);
        }
        let scheme: AppearanceScheme = AppearanceScheme::from_code(decoder.byte()?)?;
        let background: AppearanceColor = read_color(&mut decoder)?;
        let foreground: AppearanceColor = read_color(&mut decoder)?;
        let accent: AppearanceColor = read_color(&mut decoder)?;
        let selection: AppearanceColor = read_color(&mut decoder)?;
        let muted: AppearanceColor = read_color(&mut decoder)?;
        let destructive: AppearanceColor = read_color(&mut decoder)?;
        decoder.finish()?;
        Ok(
            AppearancePublish {
                provider,
                scheme,
                background,
                foreground,
                accent,
                selection,
                muted,
                destructive,
            },
        )
    }
}

} // verus!
