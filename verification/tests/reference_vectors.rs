use num_complex::Complex32;
use dsp_filter::fir::firfilt::FirFilter;
use dsp_filter::fir::firinterp::FirInterpolationFilter;
use dsp_filter::fir::firpfb::{FirPfbBank, FirPfbFilter};
use dsp_filter::iir::iirfiltsos::IirFilterSos;
use dsp_filter::window::Window;

/// `a` and `b` agree within the absolute tolerance `eps` or within `max_rel`
/// of the larger magnitude.
fn approx_eq(a: f32, b: f32, eps: f32, max_rel: f32) -> bool {
    let d = (a - b).abs();
    d <= eps || d <= max_rel * a.abs().max(b.abs())
}

#[test]
fn test_firfilt_recreate() {
        // create random-ish coefficients
        let n = 21;
        let mut h0 = vec![0.0f32; n];
        let mut h1 = vec![0.0f32; n];
        for i in 0..n {
            h0[i] = (0.3 * i as f32).cos() + (2.0f32.sqrt() * i as f32).sin();
        }

        let mut q = FirFilter::new(&h0).unwrap();

        // assert!(q.print().is_ok());
        q.set_scale(3.0);

        // copy coefficients to separate array
        h1.copy_from_slice(&h0);

        // scale coefficients by a constant
        for h in h1.iter_mut() {
            *h *= 7.1;
        }

        // recreate with new coefficients array
        q.set_coefficients(&h1).unwrap();

        // assert the scale has not changed
        let scale = q.get_scale();
        assert_eq!(scale, 3.0);

        // assert the coefficients are original scaled by 7.1
        let h = q.get_coefficients();
        for i in 0..n {
            assert!(approx_eq((h[i]) as f32, (h0[i] * 7.1) as f32, (f32::EPSILON) as f32, (1e-6) as f32));
        }

        // re-create with longer coefficients array and test impulse response
        let mut h2 = vec![0.0f32; 2*n+1]; // new random-ish coefficients
        for i in 0..(2*n+1) {
            h2[i] = (0.2 * i as f32 + 1.0).cos() + (2.0f32.ln() * i as f32).sin();
        }
        q.set_coefficients(&h2).unwrap();

        for i in 0..(2*n+1) {
            q.push(Complex32::new(if i == 0 { 1.0 } else { 0.0 }, 0.0));
            let v = q.execute();
            // output is same as input, subject to scaling factor
            assert!(approx_eq((v.re) as f32, (h2[i] * scale) as f32, (f32::EPSILON) as f32, (1e-6) as f32));
            assert!(approx_eq((v.im) as f32, (0.0) as f32, (f32::EPSILON) as f32, (1e-6) as f32));
        }
    }


#[test]
fn test_firinterp_rrrf_generic() {
        let h: [f32; 9] = [
            -0.2762293319046737,
             1.4757679031218007,
             0.1432569489572376,
            -0.2142368750177835,
             1.3471241294836864,
             0.1166010284926269,
             0.0536534505390281,
             0.1412672462812405,
            -0.0991854372394269
        ];

        let m = 4; // firinterp factor
        let mut interp = FirInterpolationFilter::<f32, f32>::new(m, &h, h.len()).unwrap();

        let x = [1.0, -1.0, 1.0, 1.0];
        let mut y = [0.0; 16];
        let test: [f32; 16] = [
            -0.2762293319046737,
             1.4757679031218007,
             0.1432569489572376,
            -0.2142368750177835,
             1.6233534613883602,
            -1.3591668746291738,
            -0.0896034984182095,
             0.3555041212990241,
            -1.7225388986277870,
             1.3591668746291738,
             0.0896034984182095,
            -0.3555041212990241,
             1.1700802348184398,
             1.5923689316144276,
             0.1969103994962658,
            -0.0729696287365430
        ];

        let tol = 1e-6;

        for i in 0..4 {
            interp.execute(x[i], &mut y[i*m..(i+1)*m]).unwrap();
        }

        for i in 0..16 {
            assert!(approx_eq((y[i]) as f32, (test[i]) as f32, (tol) as f32, (f32::EPSILON) as f32));
        }
    }

#[test]
fn test_firinterp_crcf_generic() {
        // h = [0, 0.25, 0.5, 0.75, 1.0, 0.75, 0.5, 0.25, 0];
        let h: [f32; 9] = [
            -0.7393353832652201,
             0.1909821993029451,
            -1.7013834621383086,
            -0.6157406339062349,
             0.5806218191269317,
             0.0576963976148674,
            -1.0958217797368455,
            -0.6379821629743743,
             0.7019489165905530
        ];

        let m = 4; // firinterp factor
        let mut interp = FirInterpolationFilter::<Complex32, f32>::new(m, &h, h.len()).unwrap();

        //  x = [1+j*0.2, -0.2+j*1.3, 0.5+j*0.3, 1.1-j*0.2]
        let x: [Complex32; 4] = [
            Complex32::new( 1.0000e+00,  2.0000e-01),
            Complex32::new(-2.0000e-01,  1.3000e+00),
            Complex32::new( 5.0000e-01,  3.0000e-01),
            Complex32::new( 1.1000e+00, -2.0000e-01)
        ];
            
        let mut y = [Complex32::new(0.0, 0.0); 16];

        // z = [x(1) 0 0 0 x(2) 0 0 0 x(3) 0 0 0 x(4) 0 0 0];
        // test = filter(h,1,z)
        let test: [Complex32; 16] = [
            Complex32::new(-0.7393353832652201, -0.1478670766530440),
            Complex32::new( 0.1909821993029451,  0.0381964398605890),
            Complex32::new(-1.7013834621383086, -0.3402766924276617),
            Complex32::new(-0.6157406339062349, -0.1231481267812470),
            Complex32::new( 0.7284888957799757, -0.8450116344193997),
            Complex32::new( 0.0194999577542784,  0.2598161386168021),
            Complex32::new(-0.7555450873091838, -2.4309628567271702),
            Complex32::new(-0.5148340361931273, -0.9280592566729803),
            Complex32::new( 0.2161568611325566,  0.6733975332035558),
            Complex32::new( 0.0839518201284991,  0.1322999766902112),
            Complex32::new(-0.6315273751217851, -1.9349833522993918),
            Complex32::new(-0.1802738843582426, -1.0140990020385570),
            Complex32::new(-0.6633477953463869,  1.2345872139588425),
            Complex32::new( 0.2389286180406733, -0.0208875205761288),
            Complex32::new(-2.4194326982205623,  0.0115301585066081),
            Complex32::new(-0.9963057787840456, -0.0682465221110653)
        ];

        let tol = 1e-6;

        for i in 0..4 {
            interp.execute(x[i], &mut y[i*m..(i+1)*m]).unwrap();
        }

        for i in 0..16 {
            assert!(approx_eq((y[i].re) as f32, (test[i].re) as f32, (tol) as f32, (f32::EPSILON) as f32));
            assert!(approx_eq((y[i].im) as f32, (test[i].im) as f32, (tol) as f32, (f32::EPSILON) as f32));
        }
    }


#[test]
fn test_firpfb_impulse_response() {
        // Initialize variables
        let tol = 1e-4f32;

        // k=2, m=3, beta=0.3, npfb=4;
        // h=rrcos(k*npfb,m,beta);
        let h: [f32; 48] = [
            -0.033116, -0.024181, -0.006284,  0.018261, 
             0.045016,  0.068033,  0.080919,  0.078177, 
             0.056597,  0.016403, -0.038106, -0.098610, 
            -0.153600, -0.189940, -0.194900, -0.158390, 
            -0.075002,  0.054511,  0.222690,  0.415800, 
             0.615340,  0.800390,  0.950380,  1.048100, 
             1.082000,  1.048100,  0.950380,  0.800390, 
             0.615340,  0.415800,  0.222690,  0.054511, 
            -0.075002, -0.158390, -0.194900, -0.189940, 
            -0.153600, -0.098610, -0.038106,  0.016403, 
             0.056597,  0.078177,  0.080919,  0.068033, 
             0.045016,  0.018261, -0.006284, -0.024181
        ];

        // filter input
        let noise: [f32; 12] = [
             0.438310,  1.001900,  0.200600,  0.790040, 
             1.134200,  1.592200, -0.702980, -0.937560, 
            -0.511270, -1.684700,  0.328940, -0.387780
        ];

        // expected filter outputs
        let test: [f32; 4] = [
            2.05558467194397,
            1.56922189602661,
            0.998479744645138,
            0.386125857849177
        ];

        // Load filter coefficients externally
        let mut f = FirPfbFilter::<f32, f32>::new(4, &h, 48).unwrap();
        
        for &n in noise.iter() {
            f.push(n);
        }

        for (i, &expected) in test.iter().enumerate() {
            let y = f.execute(i).unwrap();
            assert!(approx_eq((expected) as f32, (y) as f32, (tol) as f32, (0.0) as f32));
        }
    }

#[test]
fn test_firpfb_bank_matches_filter() {

        let num_filters = 4;
        let filter_len = 5;
        let h: Vec<f32> = (0..num_filters * filter_len)
            .map(|i| ((i + 1) as f32 * 0.17).sin())
            .collect();
        let mut bank = FirPfbBank::<Complex32, f32>::new(num_filters, &h, h.len()).unwrap();
        bank.set_scale(0.73);

        assert_eq!(bank.num_filters(), num_filters);
        assert_eq!(bank.filter_len(), filter_len);

        let mut filter = FirPfbFilter::from_bank(bank.clone()).unwrap();
        let mut history = Window::new(filter_len).unwrap();

        for i in 0..37 {
            let sample = Complex32::new(
                ((i + 3) as f32 * 0.11).cos(),
                ((i + 5) as f32 * 0.07).sin(),
            );
            history.push(sample);
            filter.push(sample);

            for phase in 0..num_filters {
                let actual = bank.execute(phase, history.read()).unwrap();
                let expected = filter.execute(phase).unwrap();
                assert!(approx_eq((actual.re) as f32, (expected.re) as f32, (1e-6) as f32, (0.0) as f32));
                assert!(approx_eq((actual.im) as f32, (expected.im) as f32, (1e-6) as f32, (0.0) as f32));
            }
        }
    }


#[test]
fn test_iirfiltsos_impulse_n2() {
        // initialize filter with 2nd-order low-pass butterworth filter
        let a = [
            1.000000000000000,
           -0.942809041582063,
            0.333333333333333
        ];
    
        let b = [
            0.0976310729378175,
            0.1952621458756350,
            0.0976310729378175
        ];
    
        // create identical objects
        let mut q0 = IirFilterSos::<f32, f32>::new(&b, &a).unwrap();
        let mut q1 = IirFilterSos::<f32, f32>::new(&b, &a).unwrap();
    
        // initialize oracle; expected output (generated with octave)
        let test = [
           9.76310729378175e-02,
           2.87309604180767e-01,
           3.35965474513536e-01,
           2.20981418970514e-01,
           9.63547883225231e-02,
           1.71836926400291e-02,
          -1.59173219853878e-02,
          -2.07348926322729e-02,
          -1.42432702548109e-02,
          -6.51705310050832e-03,
          -1.39657983602602e-03,
           8.55642936806248e-04,
           1.27223450919543e-03,
           9.14259886013424e-04,
           4.37894317157432e-04
        ];
    
        let tol = 1e-4f32;
    
        // hit filter with impulse, compare output
        for i in 0..15 {
            // generate input
            let v = if i == 0 { 1.0f32 } else { 0.0f32 };
    
            // run direct-form I
            let y = q0.execute_df1(v);
            assert!(approx_eq((test[i]) as f32, (y) as f32, (tol) as f32, (f32::EPSILON) as f32));
    
            // run direct-form II
            let y = q1.execute_df2(v);
            assert!(approx_eq((test[i]) as f32, (y) as f32, (tol) as f32, (f32::EPSILON) as f32));
        }
    }

#[test]
fn test_iirfiltsos_step_n2() {
        // initialize filter with 2nd-order low-pass butterworth filter
        let a = [
            1.000000000000000,
           -0.942809041582063,
            0.333333333333333
        ];
    
        let b = [
            0.0976310729378175,
            0.1952621458756350,
            0.0976310729378175
        ];
    
        // create identical objects
        let mut q0 = IirFilterSos::<f32, f32>::new(&b, &a).unwrap();
        let mut q1 = IirFilterSos::<f32, f32>::new(&b, &a).unwrap();
    
        let test = [
           0.0976310729378175,
           0.3849406771185847,
           0.7209061516321208,
           0.9418875706026352,
           1.0382423589251584,
           1.0554260515651877,
           1.0395087295798000,
           1.0187738369475272,
           1.0045305666927162,
           0.9980135135922078,
           0.9966169337561817,
           0.9974725766929878,
           0.9987448112021832,
           0.9996590710881966,
           1.0000969654053542
        ];
    
        let tol = 1e-4f32;
    
        // hit filter with step, compare output
        for i in 0..15 {
            // run direct-form I
            let y = q0.execute_df1(1.0);
            assert!(approx_eq((test[i]) as f32, (y) as f32, (tol) as f32, (f32::EPSILON) as f32));
    
            // run direct-form II
            let y = q1.execute_df2(1.0);
            assert!(approx_eq((test[i]) as f32, (y) as f32, (tol) as f32, (f32::EPSILON) as f32));
        }
    }

