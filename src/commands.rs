use crate::chunk::{append_bytes, Chunk, ChunkView};
use crate::chunk_type::ChunkType;
use crate::error::PngError;
use crate::png::{decode_png, encode_chunks, first_match, png_signature, Png};
use vstd::prelude::*;
use vstd::utf8::encode_utf8;

verus! {

/// Add a message to a file as a new chunk.
pub struct EncodeArgs {
    pub in_file_path: String,
    pub chunk_type: String,
    pub message: String,
    pub out_file_path: String,
}

/// Find the first chunk of a type.
pub struct DecodeArgs {
    pub in_file_path: String,
    pub chunk_type: String,
}

/// Take out the first chunk of a type.
pub struct RemoveArgs {
    pub in_file_path: String,
    pub chunk_type: String,
}

/// Show the payload of every chunk.
pub struct PrintArgs {
    pub in_file_path: String,
}

/// The operations offered on a file.
pub enum Commands {
    Encode(EncodeArgs),
    Decode(DecodeArgs),
    Remove(RemoveArgs),
    Print(PrintArgs),
}

/// A parsed command line.
pub struct Args {
    pub commands: Commands,
}

/// What a command produced from the input file.
#[derive(Debug)]
pub enum Outcome {
    /// The bytes of the new file, to be written to the output path.
    Written(Vec<u8>),
    /// The first chunk of the requested type, if any.
    Decoded(Option<Chunk>),
    /// The chunk that was taken out.
    Removed(Chunk),
    /// The payload of each chunk, in file order.
    Printed(Vec<Vec<u8>>),
}

/// The message of an encode command, as UTF-8, fits in one chunk's payload.
pub open spec fn message_fits(command: &Commands) -> bool {
    match command {
        Commands::Encode(a) => encode_utf8(a.message@).len() <= u32::MAX,
        _ => true,
    }
}

/// Tells whether `execute_command` can take this command.
pub fn check_message_fits(command: &Commands) -> (r: bool)
    ensures
        r == message_fits(command),
{
    match command {
        Commands::Encode(a) => (a.message.as_str().as_bytes().len() as u64) <= 0xFFFF_FFFFu64,
        _ => true,
    }
}

/// Runs one command on the bytes of the input file. Every command first
/// decodes the file and fails as that decode fails.
pub fn execute_command(command: &Commands, file: &[u8]) -> (r: Result<Outcome, PngError>)
    requires
        message_fits(command),
    ensures
        decode_png(file@) matches Err(e) ==> r == Err::<Outcome, PngError>(e),
        decode_png(file@) matches Ok(cs) ==> match command {
            Commands::Encode(a) => {
                let t = encode_utf8(a.chunk_type@);
                if crate::chunk_type::is_letter_code(t) {
                    r matches Ok(Outcome::Written(bytes)) && bytes@ == png_signature()
                        + encode_chunks(
                        cs.push(ChunkView { chunk_type: t, data: encode_utf8(a.message@) }),
                    )
                } else {
                    r == Err::<Outcome, PngError>(PngError::InvalidTypeString)
                }
            },
            Commands::Decode(a) => match first_match(cs, encode_utf8(a.chunk_type@)) {
                Some(i) => (r matches Ok(Outcome::Decoded(Some(c))) && c@ == cs[i]),
                None => (r matches Ok(Outcome::Decoded(None))),
            },
            Commands::Remove(a) => match first_match(cs, encode_utf8(a.chunk_type@)) {
                Some(i) => (r matches Ok(Outcome::Removed(c)) && c@ == cs[i]),
                None => r == Err::<Outcome, PngError>(PngError::NotFound),
            },
            Commands::Print(_) => (r matches Ok(Outcome::Printed(ds)) && ds@.len() == cs.len()
                && forall|i: int| 0 <= i < cs.len() ==> #[trigger] ds@[i]@ == cs[i].data),
        },
{
    let mut png = match Png::try_from(file) {
        Ok(p) => p,
        Err(e) => return Err(e),
    };
    match command {
        Commands::Encode(a) => {
            let chunk_type = match ChunkType::from_str(a.chunk_type.as_str()) {
                Ok(t) => t,
                Err(e) => return Err(e),
            };
            let mut data: Vec<u8> = Vec::new();
            append_bytes(&mut data, a.message.as_str().as_bytes());
            png.append_chunk(Chunk::new(chunk_type, data));
            Ok(Outcome::Written(png.as_bytes()))
        },
        Commands::Decode(a) => match png.remove_first_chunk(a.chunk_type.as_str()) {
            Ok(c) => Ok(Outcome::Decoded(Some(c))),
            Err(_) => Ok(Outcome::Decoded(None)),
        },
        Commands::Remove(a) => match png.remove_first_chunk(a.chunk_type.as_str()) {
            Ok(c) => Ok(Outcome::Removed(c)),
            Err(e) => Err(e),
        },
        Commands::Print(_) => {
            let chunks = png.chunks();
            let mut ds: Vec<Vec<u8>> = Vec::new();
            let mut i: usize = 0;
            while i < chunks.len()
                invariant
                    i <= chunks@.len(),
                    crate::png::views(chunks@) == png@,
                    ds@.len() == i,
                    forall|j: int| 0 <= j < i ==> #[trigger] ds@[j]@ == png@[j].data,
                decreases chunks@.len() - i,
            {
                let mut d: Vec<u8> = Vec::new();
                append_bytes(&mut d, chunks[i].data());
                ds.push(d);
                i = i + 1;
            }
            Ok(Outcome::Printed(ds))
        },
    }
}

} // verus!
