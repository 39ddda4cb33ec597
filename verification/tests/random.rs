use luhn::Luhn;
use rand::{sample, thread_rng, Isaac64Rng, Rng, SeedableRng};

const NUM_TESTS: usize = 10000;
const PRINTABLE: &str = "0123456789abcdefghijklmnopqrstuvwxyzABCDEFGHIJKLMNOPQRSTUVWXYZ";

#[test]
fn test_random_input() {
    let printable_chars = PRINTABLE.chars().collect::<Vec<char>>();

    // Generate a random seed and print it
    let seed: u64 = thread_rng().gen();
    println!("Seed for this run: {}", seed);

    // Create the seedable RNG with this seed.
    let mut rng = Isaac64Rng::from_seed(&[seed]);

    for i in 1..NUM_TESTS {
        // Generate a random alphabet size
        let alphabet_size: u8 = rng.gen_range(1, printable_chars.len() as u8);

        // Create the alphabet by taking this many characters from our
        // printable characters Vec.
        let chars = sample(&mut rng, &printable_chars, alphabet_size as usize)
            .into_iter()
            .cloned()
            .collect::<Vec<char>>();
        let alphabet = chars.iter().cloned().collect::<String>();

        // Generate a random input length.
        let input_length: u16 = rng.gen_range(1, 1024);

        // Generate this many random characters.
        let input = (0..input_length)
            .map(|_| *rng.choose(&*chars).unwrap())
            .collect::<String>();

        // Validate that this succeeds.
        let l = Luhn::new(&alphabet).expect("invalid alphabet given");
        match l.generate(&input) {
            Ok(check) => assert!(chars.contains(&check)),
            Err(e) => {
                println!("Alphabet = {}", alphabet);
                println!("Input = {}", input);
                panic!("{}: Unexpected error: {:?}", i, e);
            }
        }
    }
}
